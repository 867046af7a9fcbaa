//! The whole-number side of textures: the kinds of noise texture, the
//! squares of a checker board, and the pixel of an image that a texture
//! coordinate falls on.
use vstd::prelude::*;

verus! {

/// Noise as it comes.
#[derive(Debug, Clone, Copy, PartialEq, Eq, Structural)]
pub struct Plain;

/// Noise summed over octaves: the number of octaves.
#[derive(Debug, Clone, Copy, PartialEq, Eq, Structural)]
pub struct Turbulence(pub usize);

/// Noise that bends the stripes of marble.
#[derive(Debug, Clone, Copy, PartialEq, Eq, Structural)]
pub struct Marble;

impl Turbulence {
    /// Turbulence over `depth` octaves.
    pub fn new(depth: usize) -> (r: Turbulence)
        ensures
            r.0 == depth,
    {
        Turbulence(depth)
    }

    /// The number of octaves.
    pub fn depth(&self) -> (r: usize)
        ensures
            r == self.0,
    {
        self.0
    }
}

impl Marble {
    /// The number of octaves of the turbulence in marble.
    pub fn depth(&self) -> (r: usize)
        ensures
            r == 7,
    {
        7
    }
}

/// Whether the cell `(x, y, z)` of a checker board is an even one: the sum
/// of its coordinates is even.
pub open spec fn is_even_cell(x: int, y: int, z: int) -> bool {
    (x + y + z) % 2 == 0
}

/// Whether the cell `(x, y, z)` of a checker board is an even one.
pub fn checker_is_even(x: isize, y: isize, z: isize) -> (r: bool)
    ensures
        r == is_even_cell(x as int, y as int, z as int),
{
    let x_odd = x % 2 != 0;
    let y_odd = y % 2 != 0;
    let z_odd = z % 2 != 0;
    (x_odd == y_odd) != z_odd
}

/// The pixel of an image of `width` columns and `height` rows on which the
/// scaled texture coordinate `(column, row)` falls: the coordinate itself,
/// or the last column or row where it lies beyond.
pub fn texel(column: u32, row: u32, width: u32, height: u32) -> (r: (u32, u32))
    requires
        width > 0,
        height > 0,
    ensures
        r.0 < width,
        r.1 < height,
        r.0 == if column < width {
            column
        } else {
            (width - 1) as u32
        },
        r.1 == if row < height {
            row
        } else {
            (height - 1) as u32
        },
{
    let c = if column < width {
        column
    } else {
        width - 1
    };
    let r = if row < height {
        row
    } else {
        height - 1
    };
    (c, r)
}

} // verus!
