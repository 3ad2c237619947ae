use vstd::prelude::*;
use crate::bounds::{encloses, lemma_span_scales, scaled_values, spans, Bounds, Box3};
use crate::error::PipelineError;
use crate::geometry::{axis_values, Axis, Vertex};

verus! {

/// The number of tick intervals between the centre of an axis and either of
/// its ends, unless the caller asks for another.
pub const DEFAULT_SUBDIVISIONS: u16 = 10;

/// A planned viewing cube.
///
/// All lengths are in plan units: `2 * subdivisions` plan units make one grid
/// unit. In these units the midpoint of every interval, half of every extent
/// and a tenth (or whatever the subdivision count is) of that half are whole
/// numbers, so nothing is rounded.
pub struct PlanModel {
    pub center_x: int,
    pub center_y: int,
    pub center_z: int,
    pub half_extent: int,
    pub tick_step: int,
    pub subdivisions: int,
}

impl PlanModel {
    /// Plan units per grid unit.
    pub open spec fn resolution(self) -> int {
        2 * self.subdivisions
    }

    pub open spec fn center(self, axis: Axis) -> int {
        match axis {
            Axis::X => self.center_x,
            Axis::Y => self.center_y,
            Axis::Z => self.center_z,
        }
    }

    /// Where the axis range along `axis` starts.
    pub open spec fn range_start(self, axis: Axis) -> int {
        self.center(axis) - self.half_extent
    }

    /// Where the axis range along `axis` ends.
    pub open spec fn range_end(self, axis: Axis) -> int {
        self.center(axis) + self.half_extent
    }

    /// The plan with every length multiplied by `k`, on the same subdivision
    /// count.
    pub open spec fn scaled(self, k: int) -> PlanModel {
        PlanModel {
            center_x: k * self.center_x,
            center_y: k * self.center_y,
            center_z: k * self.center_z,
            half_extent: k * self.half_extent,
            tick_step: k * self.tick_step,
            subdivisions: self.subdivisions,
        }
    }
}

/// The greatest of the three extents of `b`.
pub open spec fn largest_extent(b: Box3) -> int {
    let ex = b.x.extent();
    let ey = b.y.extent();
    let ez = b.z.extent();
    if ex >= ey && ex >= ez {
        ex
    } else if ey >= ez {
        ey
    } else {
        ez
    }
}

/// The viewing cube for the bounding box `b`: centred on the midpoint of `b`
/// on every axis, reaching half the largest extent of `b` to either side on
/// all three axes alike, with `subdivisions` ticks to each half.
///
/// In grid units the centre is `(lo + hi) / 2`, the half extent is
/// `largest_extent(b) / 2` and the tick step is that half extent divided by
/// `subdivisions`; the fields hold these multiplied by the resolution
/// `2 * subdivisions`.
pub open spec fn planned(b: Box3, subdivisions: int) -> PlanModel {
    PlanModel {
        center_x: subdivisions * (b.x.lo + b.x.hi),
        center_y: subdivisions * (b.y.lo + b.y.hi),
        center_z: subdivisions * (b.z.lo + b.z.hi),
        half_extent: subdivisions * largest_extent(b),
        tick_step: largest_extent(b),
        subdivisions,
    }
}

/// One axis of the viewing cube: it runs from `start` to `end`, with a tick
/// every `step`, all in plan units.
#[derive(Clone, Copy, PartialEq, Eq, Structural, Debug)]
pub struct AxisRange {
    pub start: i64,
    pub end: i64,
    pub step: i64,
}

/// A centred, equal-scale viewing cube, computed once from the bounds of a
/// mesh and read by every frame.
#[derive(Clone, Copy, Debug)]
pub struct ViewportPlan {
    center_x: i64,
    center_y: i64,
    center_z: i64,
    half_extent: i64,
    tick_step: i64,
    subdivisions: u16,
}

impl View for ViewportPlan {
    type V = PlanModel;

    closed spec fn view(&self) -> PlanModel {
        PlanModel {
            center_x: self.center_x as int,
            center_y: self.center_y as int,
            center_z: self.center_z as int,
            half_extent: self.half_extent as int,
            tick_step: self.tick_step as int,
            subdivisions: self.subdivisions as int,
        }
    }
}

spec fn center_in_reach(c: int, subdivisions: int) -> bool {
    -subdivisions * 0x1_0000_0000 <= c <= subdivisions * 0x1_0000_0000
}

impl ViewportPlan {
    #[verifier::type_invariant]
    spec fn inv(self) -> bool {
        &&& 1 <= self.subdivisions
        &&& 0 < self.tick_step < 0x1_0000_0000
        &&& self.half_extent == self.subdivisions * self.tick_step
        &&& center_in_reach(self.center_x as int, self.subdivisions as int)
        &&& center_in_reach(self.center_y as int, self.subdivisions as int)
        &&& center_in_reach(self.center_z as int, self.subdivisions as int)
    }

    /// What every plan satisfies: the cube has a positive width, and the tick
    /// step divides the half extent into `subdivisions` equal parts.
    pub open spec fn drawable(m: PlanModel) -> bool {
        &&& 1 <= m.subdivisions
        &&& 0 < m.tick_step
        &&& m.half_extent == m.subdivisions * m.tick_step
    }

    /// The centre of the cube along `axis`, in plan units.
    pub fn center(&self, axis: Axis) -> (c: i64)
        ensures
            c == self@.center(axis),
    {
        match axis {
            Axis::X => self.center_x,
            Axis::Y => self.center_y,
            Axis::Z => self.center_z,
        }
    }

    /// Half the width of the cube, in plan units; the same on all axes.
    pub fn half_extent(&self) -> (h: i64)
        ensures
            h == self@.half_extent,
            Self::drawable(self@),
    {
        proof {
            use_type_invariant(self);
        }
        self.half_extent
    }

    /// The distance between two ticks, in plan units.
    pub fn tick_step(&self) -> (t: i64)
        ensures
            t == self@.tick_step,
            Self::drawable(self@),
    {
        proof {
            use_type_invariant(self);
        }
        self.tick_step
    }

    /// The number of ticks between the centre and either end of an axis.
    pub fn subdivisions(&self) -> (n: u16)
        ensures
            n == self@.subdivisions,
            Self::drawable(self@),
    {
        proof {
            use_type_invariant(self);
        }
        self.subdivisions
    }

    /// Plan units per grid unit: divide a planned length by this to have it
    /// in grid units.
    pub fn resolution(&self) -> (r: u32)
        ensures
            r == self@.resolution(),
            r >= 2,
    {
        proof {
            use_type_invariant(self);
        }
        2 * (self.subdivisions as u32)
    }

    /// The range of the cube along `axis`: the same span on every axis, each
    /// around its own centre.
    pub fn axis_range(&self, axis: Axis) -> (r: AxisRange)
        ensures
            r.start == self@.range_start(axis),
            r.end == self@.range_end(axis),
            r.step == self@.tick_step,
            r.start < r.end,
            r.end - r.start == 2 * self@.subdivisions * r.step,
    {
        proof {
            use_type_invariant(self);
            assert(self.subdivisions * self.tick_step < 0x1_0000 * 0x1_0000_0000) by (nonlinear_arith)
                requires
                    1 <= self.subdivisions < 0x1_0000,
                    0 < self.tick_step < 0x1_0000_0000,
            ;
            assert(self.subdivisions * self.tick_step > 0) by (nonlinear_arith)
                requires
                    1 <= self.subdivisions,
                    0 < self.tick_step,
            ;
            assert(self.subdivisions * 0x1_0000_0000 <= 0x1_0000 * 0x1_0000_0000) by (nonlinear_arith)
                requires
                    1 <= self.subdivisions < 0x1_0000,
            ;
            assert(2 * self.subdivisions * self.tick_step == 2 * (self.subdivisions * self.tick_step))
                by (nonlinear_arith);
        }
        let c = self.center(axis);
        AxisRange { start: c - self.half_extent, end: c + self.half_extent, step: self.tick_step }
    }
}

/// Plans the viewing cube for `bounds` with `subdivisions` ticks to each half
/// axis.
///
/// A box without any positive extent cannot be drawn: the planner then fails
/// with `DegenerateGeometry` and substitutes nothing.
pub fn plan_viewport_with(bounds: &Bounds, subdivisions: u16) -> (r: Result<ViewportPlan, PipelineError>)
    requires
        subdivisions >= 1,
    ensures
        r is Err <==> largest_extent(bounds@) <= 0,
        r matches Err(e) ==> e == PipelineError::DegenerateGeometry,
        r matches Ok(plan) ==> plan@ == planned(bounds@, subdivisions as int),
{
    let ex = bounds.x.extent();
    let ey = bounds.y.extent();
    let ez = bounds.z.extent();
    let largest: i64 = if ex >= ey && ex >= ez {
        ex
    } else if ey >= ez {
        ey
    } else {
        ez
    };
    if largest <= 0 {
        return Err(PipelineError::DegenerateGeometry);
    }
    let k: i64 = subdivisions as i64;
    let sx: i64 = bounds.x.min as i64 + bounds.x.max as i64;
    let sy: i64 = bounds.y.min as i64 + bounds.y.max as i64;
    let sz: i64 = bounds.z.min as i64 + bounds.z.max as i64;
    proof {
        lemma_product_in_reach(k as int, sx as int);
        lemma_product_in_reach(k as int, sy as int);
        lemma_product_in_reach(k as int, sz as int);
        lemma_product_in_reach(k as int, largest as int);
    }
    Ok(
        ViewportPlan {
            center_x: k * sx,
            center_y: k * sy,
            center_z: k * sz,
            half_extent: k * largest,
            tick_step: largest,
            subdivisions,
        },
    )
}

/// Plans the viewing cube for `bounds` with the default subdivision count.
pub fn plan_viewport(bounds: &Bounds) -> (r: Result<ViewportPlan, PipelineError>)
    ensures
        r is Err <==> largest_extent(bounds@) <= 0,
        r matches Err(e) ==> e == PipelineError::DegenerateGeometry,
        r matches Ok(plan) ==> plan@ == planned(bounds@, DEFAULT_SUBDIVISIONS as int),
{
    plan_viewport_with(bounds, DEFAULT_SUBDIVISIONS)
}

proof fn lemma_product_in_reach(k: int, s: int)
    requires
        1 <= k < 0x1_0000,
        -0x1_0000_0000 <= s <= 0x1_0000_0000,
    ensures
        -k * 0x1_0000_0000 <= k * s <= k * 0x1_0000_0000,
        -0x1_0000_0000_0000 <= k * s <= 0x1_0000_0000_0000,
{
    assert(-k * 0x1_0000_0000 <= k * s <= k * 0x1_0000_0000) by (nonlinear_arith)
        requires
            1 <= k,
            -0x1_0000_0000 <= s <= 0x1_0000_0000,
    ;
    assert(k * 0x1_0000_0000 <= 0x1_0000_0000_0000) by (nonlinear_arith)
        requires
            k < 0x1_0000,
    ;
}

/// A plan made from a box with a positive extent can be drawn.
pub proof fn lemma_plan_drawable(b: Box3, subdivisions: int)
    requires
        subdivisions >= 1,
        largest_extent(b) > 0,
    ensures
        ViewportPlan::drawable(planned(b, subdivisions)),
{
}

/// The half extent of a plan is half the largest extent of the box: no axis
/// of the box is wider than the cube, and one axis is exactly as wide.
pub proof fn lemma_half_extent_is_largest(b: Box3, subdivisions: int)
    requires
        subdivisions >= 1,
    ensures
        2 * planned(b, subdivisions).half_extent == planned(b, subdivisions).resolution() * largest_extent(b),
        forall|axis: Axis| #[trigger] b.on(axis).extent() <= largest_extent(b),
        exists|axis: Axis| #[trigger] b.on(axis).extent() == largest_extent(b),
{
    assert(2 * (subdivisions * largest_extent(b)) == (2 * subdivisions) * largest_extent(b))
        by (nonlinear_arith);
    let widest = if b.x.extent() >= b.y.extent() && b.x.extent() >= b.z.extent() {
        Axis::X
    } else if b.y.extent() >= b.z.extent() {
        Axis::Y
    } else {
        Axis::Z
    };
    assert(b.on(widest).extent() == largest_extent(b));
    assert forall|axis: Axis| #[trigger] b.on(axis).extent() <= largest_extent(b) by {
        match axis {
            Axis::X => {},
            Axis::Y => {},
            Axis::Z => {},
        }
    }
}

/// Multiplying every end of a box by a positive `k` multiplies its largest
/// extent by `k`.
pub proof fn lemma_largest_extent_scales(b: Box3, k: int)
    requires
        k > 0,
    ensures
        largest_extent(b.scaled(k)) == k * largest_extent(b),
{
    let ex = b.x.extent();
    let ey = b.y.extent();
    let ez = b.z.extent();
    assert(b.scaled(k).x.extent() == k * ex) by (nonlinear_arith)
        requires
            b.scaled(k).x.extent() == k * b.x.hi - k * b.x.lo,
            ex == b.x.hi - b.x.lo,
    ;
    assert(b.scaled(k).y.extent() == k * ey) by (nonlinear_arith)
        requires
            b.scaled(k).y.extent() == k * b.y.hi - k * b.y.lo,
            ey == b.y.hi - b.y.lo,
    ;
    assert(b.scaled(k).z.extent() == k * ez) by (nonlinear_arith)
        requires
            b.scaled(k).z.extent() == k * b.z.hi - k * b.z.lo,
            ez == b.z.hi - b.z.lo,
    ;
    assert((ex >= ey <==> k * ex >= k * ey) && (ex >= ez <==> k * ex >= k * ez) && (ey >= ez <==> k * ey
        >= k * ez)) by (nonlinear_arith)
        requires
            k > 0,
    ;
}

/// The planner is linear: a box with every end multiplied by a positive `k`
/// gets the plan of the unscaled box with its centre, half extent and tick
/// step multiplied by exactly `k`.
pub proof fn lemma_plan_scales(b: Box3, subdivisions: int, k: int)
    requires
        k > 0,
    ensures
        planned(b.scaled(k), subdivisions) == planned(b, subdivisions).scaled(k),
{
    lemma_largest_extent_scales(b, k);
    let e = largest_extent(b);
    assert(subdivisions * (k * e) == k * (subdivisions * e)) by (nonlinear_arith);
    assert(subdivisions * (k * b.x.lo + k * b.x.hi) == k * (subdivisions * (b.x.lo + b.x.hi)))
        by (nonlinear_arith);
    assert(subdivisions * (k * b.y.lo + k * b.y.hi) == k * (subdivisions * (b.y.lo + b.y.hi)))
        by (nonlinear_arith);
    assert(subdivisions * (k * b.z.lo + k * b.z.hi) == k * (subdivisions * (b.z.lo + b.z.hi)))
        by (nonlinear_arith);
}

/// `scaled` holds the vertices of `vertices`, in the same order, with every
/// coordinate multiplied by `k`.
pub open spec fn is_scaling_of(scaled: Seq<Vertex>, vertices: Seq<Vertex>, k: int) -> bool {
    &&& scaled.len() == vertices.len()
    &&& forall|i: int|
        0 <= i < vertices.len() ==> {
            &&& (#[trigger] scaled[i]).x == k * vertices[i].x
            &&& scaled[i].y == k * vertices[i].y
            &&& scaled[i].z == k * vertices[i].z
        }
}

/// Scaling all vertices by a positive `k` scales the bounding box, and with
/// it the centre, the half extent and the tick step of the plan, by exactly
/// `k`.
pub proof fn lemma_scaled_vertices_scale_plan(
    vertices: Seq<Vertex>,
    scaled: Seq<Vertex>,
    b: Box3,
    subdivisions: int,
    k: int,
)
    requires
        k > 0,
        is_scaling_of(scaled, vertices, k),
        encloses(vertices, b),
    ensures
        encloses(scaled, b.scaled(k)),
        planned(b.scaled(k), subdivisions) == planned(b, subdivisions).scaled(k),
{
    lemma_plan_scales(b, subdivisions, k);
    lemma_span_scales(axis_values(vertices, Axis::X), b.x, k);
    lemma_span_scales(axis_values(vertices, Axis::Y), b.y, k);
    lemma_span_scales(axis_values(vertices, Axis::Z), b.z, k);
    assert(axis_values(scaled, Axis::X) =~= scaled_values(axis_values(vertices, Axis::X), k));
    assert(axis_values(scaled, Axis::Y) =~= scaled_values(axis_values(vertices, Axis::Y), k));
    assert(axis_values(scaled, Axis::Z) =~= scaled_values(axis_values(vertices, Axis::Z), k));
}

/// Nothing is clipped: on every axis, every vertex of the set lies within
/// the range of the cube planned for its bounding box.
pub proof fn lemma_plan_contains_vertices(vertices: Seq<Vertex>, b: Box3, subdivisions: int, i: int, axis: Axis)
    requires
        subdivisions >= 1,
        encloses(vertices, b),
        0 <= i < vertices.len(),
    ensures
        ({
            let plan = planned(b, subdivisions);
            let at = plan.resolution() * vertices[i].along(axis);
            plan.range_start(axis) <= at <= plan.range_end(axis)
        }),
{
    lemma_half_extent_is_largest(b, subdivisions);
    let s = b.on(axis);
    let c = vertices[i].along(axis);
    assert(spans(axis_values(vertices, axis), s));
    assert(axis_values(vertices, axis)[i] == c);
    assert(s.lo <= c <= s.hi);
    let e = largest_extent(b);
    assert(s.extent() <= e);
    let plan = planned(b, subdivisions);
    assert(plan.center(axis) == subdivisions * (s.lo + s.hi));
    assert(subdivisions * (s.lo + s.hi) - subdivisions * e <= (2 * subdivisions) * c && (2 * subdivisions) * c
        <= subdivisions * (s.lo + s.hi) + subdivisions * e) by (nonlinear_arith)
        requires
            subdivisions >= 1,
            s.lo <= c <= s.hi,
            s.hi - s.lo <= e,
    ;
}

} // verus!
