use vstd::prelude::*;
use crate::error::PipelineError;
use crate::geometry::{axis_values, Axis, Vertex};

verus! {

/// A closed interval `[lo, hi]` of coordinates.
pub struct Span {
    pub lo: int,
    pub hi: int,
}

/// One interval per axis.
pub struct Box3 {
    pub x: Span,
    pub y: Span,
    pub z: Span,
}

impl Span {
    /// The width `hi - lo` of the interval.
    pub open spec fn extent(self) -> int {
        self.hi - self.lo
    }

    /// The interval with both ends multiplied by `k`.
    pub open spec fn scaled(self, k: int) -> Span {
        Span { lo: k * self.lo, hi: k * self.hi }
    }
}

impl Box3 {
    pub open spec fn on(self, axis: Axis) -> Span {
        match axis {
            Axis::X => self.x,
            Axis::Y => self.y,
            Axis::Z => self.z,
        }
    }

    /// The box with every end multiplied by `k`.
    pub open spec fn scaled(self, k: int) -> Box3 {
        Box3 { x: self.x.scaled(k), y: self.y.scaled(k), z: self.z.scaled(k) }
    }
}

/// `m` occurs in `values` and nothing in `values` is below it.
pub open spec fn is_least(values: Seq<int>, m: int) -> bool {
    &&& exists|i: int| 0 <= i < values.len() && values[i] == m
    &&& forall|i: int| 0 <= i < values.len() ==> m <= values[i]
}

/// `m` occurs in `values` and nothing in `values` is above it.
pub open spec fn is_greatest(values: Seq<int>, m: int) -> bool {
    &&& exists|i: int| 0 <= i < values.len() && values[i] == m
    &&& forall|i: int| 0 <= i < values.len() ==> values[i] <= m
}

/// `s` runs from the least to the greatest of `values`.
pub open spec fn spans(values: Seq<int>, s: Span) -> bool {
    is_least(values, s.lo) && is_greatest(values, s.hi)
}

/// `b` is the axis-aligned bounding box of `vertices`: on every axis it runs
/// from the least to the greatest coordinate that occurs.
pub open spec fn encloses(vertices: Seq<Vertex>, b: Box3) -> bool {
    &&& spans(axis_values(vertices, Axis::X), b.x)
    &&& spans(axis_values(vertices, Axis::Y), b.y)
    &&& spans(axis_values(vertices, Axis::Z), b.z)
}

/// The axis-aligned bounding box of `vertices`. It is the one box that
/// encloses them; an empty set has none, and nothing is said of it then.
pub open spec fn bounding_box(vertices: Seq<Vertex>) -> Box3 {
    choose|b: Box3| encloses(vertices, b)
}

/// The extent of a vertex set along one axis.
#[derive(Clone, Copy, PartialEq, Eq, Structural, Debug)]
pub struct AxisBounds {
    pub min: i32,
    pub max: i32,
}

impl View for AxisBounds {
    type V = Span;

    open spec fn view(&self) -> Span {
        Span { lo: self.min as int, hi: self.max as int }
    }
}

impl AxisBounds {
    /// The lower end does not exceed the upper end.
    pub open spec fn wf(&self) -> bool {
        self.min <= self.max
    }

    /// The width of the interval, `max - min`.
    pub fn extent(&self) -> (e: i64)
        ensures
            e == self@.extent(),
    {
        self.max as i64 - self.min as i64
    }

    /// The interval widened just enough to hold `c`.
    pub fn including(&self, c: i32) -> (r: AxisBounds)
        ensures
            r.min == (if c < self.min { c } else { self.min }),
            r.max == (if c > self.max { c } else { self.max }),
    {
        AxisBounds {
            min: if c < self.min { c } else { self.min },
            max: if c > self.max { c } else { self.max },
        }
    }
}

/// The extents of a vertex set along the three axes.
#[derive(Clone, Copy, PartialEq, Eq, Structural, Debug)]
pub struct Bounds {
    pub x: AxisBounds,
    pub y: AxisBounds,
    pub z: AxisBounds,
}

impl View for Bounds {
    type V = Box3;

    open spec fn view(&self) -> Box3 {
        Box3 { x: self.x@, y: self.y@, z: self.z@ }
    }
}

impl Bounds {
    /// On every axis the lower end does not exceed the upper end.
    pub open spec fn wf(&self) -> bool {
        self.x.wf() && self.y.wf() && self.z.wf()
    }

    pub fn axis(&self, axis: Axis) -> (b: AxisBounds)
        ensures
            b@ == self@.on(axis),
            self.wf() ==> b.wf(),
    {
        match axis {
            Axis::X => self.x,
            Axis::Y => self.y,
            Axis::Z => self.z,
        }
    }
}

/// `s` runs from the least to the greatest coordinate along `axis` among the
/// first `n` of `vertices`.
spec fn spans_first(vertices: Seq<Vertex>, axis: Axis, n: int, s: Span) -> bool {
    &&& exists|j: int| 0 <= j < n && #[trigger] vertices[j].along(axis) == s.lo
    &&& exists|j: int| 0 <= j < n && #[trigger] vertices[j].along(axis) == s.hi
    &&& forall|j: int| 0 <= j < n ==> s.lo <= #[trigger] vertices[j].along(axis) && vertices[j].along(axis) <= s.hi
}

proof fn lemma_spans_first_grows(vertices: Seq<Vertex>, axis: Axis, n: int, old_b: AxisBounds, new_b: AxisBounds)
    requires
        1 <= n < vertices.len(),
        spans_first(vertices, axis, n, old_b@),
        new_b.min == (if vertices[n].along(axis) < old_b.min { vertices[n].along(axis) } else { old_b.min as int }),
        new_b.max == (if vertices[n].along(axis) > old_b.max { vertices[n].along(axis) } else { old_b.max as int }),
    ensures
        spans_first(vertices, axis, n + 1, new_b@),
{
    let lo_at = choose|j: int| 0 <= j < n && #[trigger] vertices[j].along(axis) == old_b@.lo;
    let hi_at = choose|j: int| 0 <= j < n && #[trigger] vertices[j].along(axis) == old_b@.hi;
    let c = vertices[n].along(axis);
    let new_lo_at = if c < old_b.min { n } else { lo_at };
    let new_hi_at = if c > old_b.max { n } else { hi_at };
    assert(0 <= new_lo_at < n + 1 && vertices[new_lo_at].along(axis) == new_b@.lo);
    assert(0 <= new_hi_at < n + 1 && vertices[new_hi_at].along(axis) == new_b@.hi);
}

proof fn lemma_spans_first_all(vertices: Seq<Vertex>, axis: Axis, s: Span)
    requires
        spans_first(vertices, axis, vertices.len() as int, s),
    ensures
        spans(axis_values(vertices, axis), s),
{
    let values = axis_values(vertices, axis);
    let lo_at = choose|j: int| 0 <= j < vertices.len() && #[trigger] vertices[j].along(axis) == s.lo;
    let hi_at = choose|j: int| 0 <= j < vertices.len() && #[trigger] vertices[j].along(axis) == s.hi;
    assert(values[lo_at] == s.lo);
    assert(values[hi_at] == s.hi);
    assert forall|i: int| 0 <= i < values.len() implies s.lo <= #[trigger] values[i] && values[i] <= s.hi by {
        assert(values[i] == vertices[i].along(axis));
    }
}

/// Computes the axis-aligned bounding box of `vertices` in one pass, keeping
/// a running least and greatest coordinate for each axis.
///
/// Fails with `EmptyGeometry` exactly when there is no vertex. Otherwise each
/// end of each interval is a coordinate of some vertex, and no vertex lies
/// outside the box.
pub fn compute_bounds(vertices: &[Vertex]) -> (r: Result<Bounds, PipelineError>)
    ensures
        r is Err <==> vertices@.len() == 0,
        r matches Err(e) ==> e == PipelineError::EmptyGeometry,
        r matches Ok(b) ==> b.wf() && encloses(vertices@, b@) && b@ == bounding_box(vertices@),
{
    if vertices.len() == 0 {
        return Err(PipelineError::EmptyGeometry);
    }
    let first = vertices[0];
    let mut b = Bounds {
        x: AxisBounds { min: first.x, max: first.x },
        y: AxisBounds { min: first.y, max: first.y },
        z: AxisBounds { min: first.z, max: first.z },
    };
    assert(vertices@[0].along(Axis::X) == b.x@.lo);
    assert(vertices@[0].along(Axis::Y) == b.y@.lo);
    assert(vertices@[0].along(Axis::Z) == b.z@.lo);
    let mut i: usize = 1;
    while i < vertices.len()
        invariant
            1 <= i <= vertices.len(),
            b.wf(),
            spans_first(vertices@, Axis::X, i as int, b.x@),
            spans_first(vertices@, Axis::Y, i as int, b.y@),
            spans_first(vertices@, Axis::Z, i as int, b.z@),
        decreases vertices.len() - i,
    {
        let v = vertices[i];
        let next = Bounds { x: b.x.including(v.x), y: b.y.including(v.y), z: b.z.including(v.z) };
        proof {
            lemma_spans_first_grows(vertices@, Axis::X, i as int, b.x, next.x);
            lemma_spans_first_grows(vertices@, Axis::Y, i as int, b.y, next.y);
            lemma_spans_first_grows(vertices@, Axis::Z, i as int, b.z, next.z);
        }
        b = next;
        i = i + 1;
    }
    proof {
        lemma_spans_first_all(vertices@, Axis::X, b.x@);
        lemma_spans_first_all(vertices@, Axis::Y, b.y@);
        lemma_spans_first_all(vertices@, Axis::Z, b.z@);
        lemma_bounding_box_unique(vertices@, b@, bounding_box(vertices@));
    }
    Ok(b)
}

/// `values` with every entry multiplied by `k`.
pub open spec fn scaled_values(values: Seq<int>, k: int) -> Seq<int> {
    Seq::new(values.len(), |i: int| k * values[i])
}

/// A sequence has at most one least and one greatest entry, so at most one
/// interval spans it.
pub proof fn lemma_span_unique(values: Seq<int>, a: Span, b: Span)
    requires
        spans(values, a),
        spans(values, b),
    ensures
        a == b,
{
}

/// An interval that spans a sequence is not reversed: its lower end does not
/// exceed its upper end.
pub proof fn lemma_span_ordered(values: Seq<int>, s: Span)
    requires
        spans(values, s),
    ensures
        s.lo <= s.hi,
{
}

/// A vertex set has at most one bounding box.
pub proof fn lemma_bounding_box_unique(vertices: Seq<Vertex>, a: Box3, b: Box3)
    requires
        encloses(vertices, a),
        encloses(vertices, b),
    ensures
        a == b,
{
    lemma_span_unique(axis_values(vertices, Axis::X), a.x, b.x);
    lemma_span_unique(axis_values(vertices, Axis::Y), a.y, b.y);
    lemma_span_unique(axis_values(vertices, Axis::Z), a.z, b.z);
}

/// On every axis of a bounding box the lower end does not exceed the upper
/// end, and both ends are coordinates of vertices of the set.
pub proof fn lemma_bounding_box_attained(vertices: Seq<Vertex>, b: Box3, axis: Axis)
    requires
        encloses(vertices, b),
    ensures
        b.on(axis).lo <= b.on(axis).hi,
        exists|i: int| 0 <= i < vertices.len() && #[trigger] vertices[i].along(axis) == b.on(axis).lo,
        exists|i: int| 0 <= i < vertices.len() && #[trigger] vertices[i].along(axis) == b.on(axis).hi,
{
    let values = axis_values(vertices, axis);
    let s = b.on(axis);
    assert(spans(values, s));
    let lo_at = choose|i: int| 0 <= i < values.len() && values[i] == s.lo;
    let hi_at = choose|i: int| 0 <= i < values.len() && values[i] == s.hi;
    assert(vertices[lo_at].along(axis) == s.lo);
    assert(vertices[hi_at].along(axis) == s.hi);
}

proof fn lemma_shared_member(first: Seq<Vertex>, second: Seq<Vertex>, v: Vertex)
    requires
        first.to_multiset() == second.to_multiset(),
        first.contains(v),
    ensures
        second.contains(v),
{
    first.to_multiset_ensures();
    second.to_multiset_ensures();
    assert(first.to_multiset().count(v) > 0);
    assert(second.to_multiset().count(v) > 0);
}

proof fn lemma_span_ignores_order(first: Seq<Vertex>, second: Seq<Vertex>, axis: Axis, s: Span)
    requires
        first.to_multiset() == second.to_multiset(),
        spans(axis_values(first, axis), s),
    ensures
        spans(axis_values(second, axis), s),
{
    let a = axis_values(first, axis);
    let b = axis_values(second, axis);
    let lo_at = choose|i: int| 0 <= i < a.len() && a[i] == s.lo;
    let hi_at = choose|i: int| 0 <= i < a.len() && a[i] == s.hi;
    assert(first.contains(first[lo_at]));
    lemma_shared_member(first, second, first[lo_at]);
    let lo_in_b = choose|j: int| 0 <= j < second.len() && second[j] == first[lo_at];
    assert(b[lo_in_b] == s.lo);
    assert(first.contains(first[hi_at]));
    lemma_shared_member(first, second, first[hi_at]);
    let hi_in_b = choose|j: int| 0 <= j < second.len() && second[j] == first[hi_at];
    assert(b[hi_in_b] == s.hi);
    assert forall|j: int| 0 <= j < b.len() implies s.lo <= #[trigger] b[j] && b[j] <= s.hi by {
        assert(second.contains(second[j]));
        lemma_shared_member(second, first, second[j]);
        let i = choose|i: int| 0 <= i < first.len() && first[i] == second[j];
        assert(a[i] == b[j]);
    }
}

/// The bounding box depends on which vertices occur, not on their order:
/// two sequences with the same vertices, counted with repetition, have the
/// same bounding box.
pub proof fn lemma_bounding_box_ignores_order(first: Seq<Vertex>, second: Seq<Vertex>, b: Box3)
    requires
        first.to_multiset() == second.to_multiset(),
        encloses(first, b),
    ensures
        encloses(second, b),
{
    lemma_span_ignores_order(first, second, Axis::X, b.x);
    lemma_span_ignores_order(first, second, Axis::Y, b.y);
    lemma_span_ignores_order(first, second, Axis::Z, b.z);
}

/// Multiplying every entry of a sequence by a positive `k` multiplies its
/// least and greatest entries by `k`.
pub proof fn lemma_span_scales(values: Seq<int>, s: Span, k: int)
    requires
        k > 0,
        spans(values, s),
    ensures
        spans(scaled_values(values, k), s.scaled(k)),
{
    let scaled = scaled_values(values, k);
    let lo_at = choose|i: int| 0 <= i < values.len() && values[i] == s.lo;
    let hi_at = choose|i: int| 0 <= i < values.len() && values[i] == s.hi;
    assert(scaled[lo_at] == k * s.lo);
    assert(scaled[hi_at] == k * s.hi);
    assert forall|i: int| 0 <= i < scaled.len() implies k * s.lo <= #[trigger] scaled[i] && scaled[i] <= k * s.hi by {
        assert(s.lo <= values[i] && values[i] <= s.hi);
        assert(k * s.lo <= k * values[i] && k * values[i] <= k * s.hi) by (nonlinear_arith)
            requires
                k > 0,
                s.lo <= values[i],
                values[i] <= s.hi,
        ;
    }
}

/// A set in which one vertex is repeated throughout has a bounding box
/// without extent: on every axis both ends are that vertex's coordinate.
pub proof fn lemma_repeated_vertex_box(vertices: Seq<Vertex>, b: Box3, axis: Axis)
    requires
        encloses(vertices, b),
        forall|i: int| 0 <= i < vertices.len() ==> #[trigger] vertices[i] == vertices[0],
    ensures
        b.on(axis).lo == vertices[0].along(axis),
        b.on(axis).hi == vertices[0].along(axis),
        b.on(axis).extent() == 0,
{
    lemma_bounding_box_attained(vertices, b, axis);
}

proof fn lemma_span_exists(values: Seq<int>) -> (s: Span)
    requires
        values.len() > 0,
    ensures
        spans(values, s),
    decreases values.len(),
{
    if values.len() == 1 {
        let s = Span { lo: values[0], hi: values[0] };
        assert(values[0] == s.lo);
        s
    } else {
        let init = values.drop_last();
        let last = values.last();
        let t = lemma_span_exists(init);
        let lo_at = choose|i: int| 0 <= i < init.len() && init[i] == t.lo;
        let hi_at = choose|i: int| 0 <= i < init.len() && init[i] == t.hi;
        let end = values.len() - 1;
        let s = Span { lo: if last < t.lo { last } else { t.lo }, hi: if last > t.hi { last } else { t.hi } };
        let new_lo_at = if last < t.lo { end } else { lo_at };
        let new_hi_at = if last > t.hi { end } else { hi_at };
        assert(values[new_lo_at] == s.lo);
        assert(values[new_hi_at] == s.hi);
        assert forall|i: int| 0 <= i < values.len() implies s.lo <= #[trigger] values[i] && values[i] <= s.hi by {
            if i < end {
                assert(init[i] == values[i]);
            }
        }
        s
    }
}

/// Every vertex set that is not empty has a bounding box.
pub proof fn lemma_bounding_box_exists(vertices: Seq<Vertex>)
    requires
        vertices.len() > 0,
    ensures
        encloses(vertices, bounding_box(vertices)),
{
    let x = lemma_span_exists(axis_values(vertices, Axis::X));
    let y = lemma_span_exists(axis_values(vertices, Axis::Y));
    let z = lemma_span_exists(axis_values(vertices, Axis::Z));
    assert(encloses(vertices, Box3 { x, y, z }));
}

} // verus!
