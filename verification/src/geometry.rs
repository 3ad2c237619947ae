use vstd::prelude::*;

verus! {

/// One of the three coordinate axes.
#[derive(Clone, Copy, PartialEq, Eq, Structural, Debug)]
pub enum Axis {
    X,
    Y,
    Z,
}

/// A position on the coordinate grid.
#[derive(Clone, Copy, PartialEq, Eq, Structural, Debug)]
pub struct Vertex {
    pub x: i32,
    pub y: i32,
    pub z: i32,
}

/// A point produced by surface sampling; it lives on the same grid as the
/// vertices.
pub type SampledPoint = Vertex;

impl Vertex {
    /// The coordinate of this position along `axis`.
    pub open spec fn along(self, axis: Axis) -> int {
        match axis {
            Axis::X => self.x as int,
            Axis::Y => self.y as int,
            Axis::Z => self.z as int,
        }
    }

    pub fn new(x: i32, y: i32, z: i32) -> (v: Vertex)
        ensures
            v == (Vertex { x, y, z }),
    {
        Vertex { x, y, z }
    }

    pub fn coord(&self, axis: Axis) -> (c: i32)
        ensures
            c == self.along(axis),
    {
        match axis {
            Axis::X => self.x,
            Axis::Y => self.y,
            Axis::Z => self.z,
        }
    }
}

/// The coordinates of `vertices` along `axis`, in order.
pub open spec fn axis_values(vertices: Seq<Vertex>, axis: Axis) -> Seq<int> {
    Seq::new(vertices.len(), |i: int| vertices[i].along(axis))
}

} // verus!
