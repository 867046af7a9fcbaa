//! The corners and sides of a box along the axes, counted on the unit cube:
//! a coordinate is 0 at the lower bound of the box and 1 at the upper.
use vstd::prelude::*;

verus! {

/// The three axes.
#[derive(Debug, Clone, Copy, PartialEq, Eq, Structural)]
pub enum Axis {
    X,
    Y,
    Z,
}

/// A corner of a box: for each axis, whether the corner lies at the upper
/// bound.
#[derive(Debug, Clone, Copy, PartialEq, Eq, Structural)]
pub struct Corner {
    pub x: bool,
    pub y: bool,
    pub z: bool,
}

/// An edge of a box as a step from a corner: along `axis` by the extent of
/// the box, toward the upper bound where `forward` holds.
#[derive(Debug, Clone, Copy, PartialEq, Eq, Structural)]
pub struct Edge {
    pub axis: Axis,
    pub forward: bool,
}

/// A side of a box: the parallelogram with the corner `corner` and the
/// edges `u` and `v` from it.
#[derive(Debug, Clone, Copy, PartialEq, Eq, Structural)]
pub struct Side {
    pub corner: Corner,
    pub u: Edge,
    pub v: Edge,
}

/// A point or step with whole-number coordinates.
pub struct Lattice {
    pub x: int,
    pub y: int,
    pub z: int,
}

impl Lattice {
    /// The sum, coordinate by coordinate.
    pub open spec fn plus(self, other: Lattice) -> Lattice {
        Lattice { x: self.x + other.x, y: self.y + other.y, z: self.z + other.z }
    }

    /// The cross product.
    pub open spec fn cross(self, other: Lattice) -> Lattice {
        Lattice {
            x: self.y * other.z - self.z * other.y,
            y: self.z * other.x - self.x * other.z,
            z: self.x * other.y - self.y * other.x,
        }
    }

    /// The coordinate along `axis`.
    pub open spec fn along(self, axis: Axis) -> int {
        match axis {
            Axis::X => self.x,
            Axis::Y => self.y,
            Axis::Z => self.z,
        }
    }

    /// The point is a corner of the unit cube.
    pub open spec fn on_cube(self) -> bool {
        0 <= self.x <= 1 && 0 <= self.y <= 1 && 0 <= self.z <= 1
    }
}

/// One where `b` holds, else zero.
pub open spec fn bit(b: bool) -> int {
    if b {
        1
    } else {
        0
    }
}

impl Corner {
    /// The corner as a point of the unit cube.
    pub open spec fn point(self) -> Lattice {
        Lattice { x: bit(self.x), y: bit(self.y), z: bit(self.z) }
    }
}

impl Edge {
    /// The edge as a step on the unit cube.
    pub open spec fn step(self) -> Lattice {
        let d = if self.forward {
            1int
        } else {
            -1int
        };
        match self.axis {
            Axis::X => Lattice { x: d, y: 0, z: 0 },
            Axis::Y => Lattice { x: 0, y: d, z: 0 },
            Axis::Z => Lattice { x: 0, y: 0, z: d },
        }
    }
}

impl Side {
    /// The direction in which the side faces: the cross product of its
    /// edges.
    pub open spec fn facing(self) -> Lattice {
        self.u.step().cross(self.v.step())
    }

    /// The side is the face of the unit cube that looks along `axis`, toward
    /// the upper bound where `forward` holds: its four corners are corners
    /// of the cube on that face, and it faces away from the cube.
    pub open spec fn is_face(self, axis: Axis, forward: bool) -> bool {
        let q = self.corner.point();
        let qu = q.plus(self.u.step());
        let qv = q.plus(self.v.step());
        let quv = qu.plus(self.v.step());
        &&& qu.on_cube() && qv.on_cube() && quv.on_cube()
        &&& q.along(axis) == bit(forward)
        &&& qu.along(axis) == bit(forward)
        &&& qv.along(axis) == bit(forward)
        &&& quv.along(axis) == bit(forward)
        &&& self.facing() == (Edge { axis, forward }).step()
    }
}

/// The six sides of a box: front, right, back, left, top and bottom, seen
/// along the z axis from above the upper bound.
pub open spec fn sides_spec() -> Seq<Side> {
    seq![
        Side {
            corner: Corner { x: false, y: false, z: true },
            u: Edge { axis: Axis::X, forward: true },
            v: Edge { axis: Axis::Y, forward: true },
        },
        Side {
            corner: Corner { x: true, y: false, z: true },
            u: Edge { axis: Axis::Z, forward: false },
            v: Edge { axis: Axis::Y, forward: true },
        },
        Side {
            corner: Corner { x: true, y: false, z: false },
            u: Edge { axis: Axis::X, forward: false },
            v: Edge { axis: Axis::Y, forward: true },
        },
        Side {
            corner: Corner { x: false, y: false, z: false },
            u: Edge { axis: Axis::Z, forward: true },
            v: Edge { axis: Axis::Y, forward: true },
        },
        Side {
            corner: Corner { x: false, y: true, z: true },
            u: Edge { axis: Axis::X, forward: true },
            v: Edge { axis: Axis::Z, forward: false },
        },
        Side {
            corner: Corner { x: false, y: false, z: false },
            u: Edge { axis: Axis::X, forward: true },
            v: Edge { axis: Axis::Z, forward: true },
        },
    ]
}

/// The six sides are the six faces of the box, each facing outward.
pub proof fn lemma_sides_are_the_faces()
    ensures
        sides_spec().len() == 6,
        sides_spec()[0].is_face(Axis::Z, true),
        sides_spec()[1].is_face(Axis::X, true),
        sides_spec()[2].is_face(Axis::Z, false),
        sides_spec()[3].is_face(Axis::X, false),
        sides_spec()[4].is_face(Axis::Y, true),
        sides_spec()[5].is_face(Axis::Y, false),
{
}

/// The six sides of a box.
pub fn sides() -> (r: Vec<Side>)
    ensures
        r@ == sides_spec(),
{
    let mut r: Vec<Side> = Vec::new();
    r.push(
        Side {
            corner: Corner { x: false, y: false, z: true },
            u: Edge { axis: Axis::X, forward: true },
            v: Edge { axis: Axis::Y, forward: true },
        },
    );
    r.push(
        Side {
            corner: Corner { x: true, y: false, z: true },
            u: Edge { axis: Axis::Z, forward: false },
            v: Edge { axis: Axis::Y, forward: true },
        },
    );
    r.push(
        Side {
            corner: Corner { x: true, y: false, z: false },
            u: Edge { axis: Axis::X, forward: false },
            v: Edge { axis: Axis::Y, forward: true },
        },
    );
    r.push(
        Side {
            corner: Corner { x: false, y: false, z: false },
            u: Edge { axis: Axis::Z, forward: true },
            v: Edge { axis: Axis::Y, forward: true },
        },
    );
    r.push(
        Side {
            corner: Corner { x: false, y: true, z: true },
            u: Edge { axis: Axis::X, forward: true },
            v: Edge { axis: Axis::Z, forward: false },
        },
    );
    r.push(
        Side {
            corner: Corner { x: false, y: false, z: false },
            u: Edge { axis: Axis::X, forward: true },
            v: Edge { axis: Axis::Z, forward: true },
        },
    );
    proof {
        assert(r@ =~= sides_spec());
    }
    r
}

/// The corner of the unit cube at place `k` of the eight: x changes
/// slowest and z fastest.
pub open spec fn corner_at(k: int) -> Corner {
    Corner { x: k / 4 % 2 == 1, y: k / 2 % 2 == 1, z: k % 2 == 1 }
}

/// The eight corners of a box, x changing slowest and z fastest.
pub fn corners() -> (r: Vec<Corner>)
    ensures
        r@.len() == 8,
        forall|k: int| 0 <= k < 8 ==> r@[k] == corner_at(k),
{
    let mut r: Vec<Corner> = Vec::new();
    let mut k: usize = 0;
    while k < 8
        invariant
            k <= 8,
            r@.len() == k,
            forall|j: int| 0 <= j < k ==> r@[j] == corner_at(j),
        decreases 8 - k,
    {
        r.push(Corner { x: k / 4 % 2 == 1, y: k / 2 % 2 == 1, z: k % 2 == 1 });
        k = k + 1;
    }
    r
}

/// Every corner of the unit cube is one of the eight, and no two of the
/// eight are the same.
pub proof fn lemma_corners_are_all(c: Corner)
    ensures
        0 <= 4 * bit(c.x) + 2 * bit(c.y) + bit(c.z) < 8,
        corner_at(4 * bit(c.x) + 2 * bit(c.y) + bit(c.z)) == c,
        forall|j: int, k: int| 0 <= j < k < 8 ==> corner_at(j) != corner_at(k),
{
}

/// The axis along which a box is longest; of equal lengths, the first.
/// `lengths` holds, for each axis, a whole number that stands in the order
/// of the lengths.
pub fn longest_axis(lengths: &[i64; 3]) -> (r: Axis)
    ensures
        r == if lengths[0] >= lengths[1] && lengths[0] >= lengths[2] {
            Axis::X
        } else if lengths[1] >= lengths[2] {
            Axis::Y
        } else {
            Axis::Z
        },
{
    if lengths[0] >= lengths[1] && lengths[0] >= lengths[2] {
        Axis::X
    } else if lengths[1] >= lengths[2] {
        Axis::Y
    } else {
        Axis::Z
    }
}

impl Axis {
    /// The number of the axis: 0, 1 or 2.
    pub fn index(&self) -> (r: usize)
        ensures
            r == match self {
                Axis::X => 0usize,
                Axis::Y => 1usize,
                Axis::Z => 2usize,
            },
    {
        match self {
            Axis::X => 0,
            Axis::Y => 1,
            Axis::Z => 2,
        }
    }

    /// The axis with the number `index`, which must be 0, 1 or 2.
    pub fn from_index(index: usize) -> (r: Axis)
        requires
            index < 3,
        ensures
            r.index_spec() == index,
    {
        if index == 0 {
            Axis::X
        } else if index == 1 {
            Axis::Y
        } else {
            Axis::Z
        }
    }

    /// The number of the axis: 0, 1 or 2.
    pub open spec fn index_spec(self) -> int {
        match self {
            Axis::X => 0,
            Axis::Y => 1,
            Axis::Z => 2,
        }
    }
}

} // verus!
