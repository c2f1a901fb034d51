//! Grid coordinates. The world wraps around horizontally and is bounded
//! vertically; row zero is the ground.

use vstd::prelude::*;

verus! {

/// A coordinate pair: `x` counts columns, `y` counts rows up from the ground.
#[derive(Clone, Copy, Debug, PartialEq, Eq, Structural)]
pub struct Pos {
    pub x: i32,
    pub y: i32,
}

/// The column that `x` denotes on a ring of `width` columns.
pub open spec fn wrap_spec(x: int, width: int) -> int {
    x % width
}

/// Folds any horizontal coordinate onto the ring of `width` columns.
pub fn wrap(x: i32, width: i32) -> (column: i32)
    requires
        0 < width,
    ensures
        column == wrap_spec(x as int, width as int),
        0 <= column < width,
{
    if x >= 0 {
        x % width
    } else {
        // -(x + 1) is the distance below -1, so it cannot overflow.
        let below: i32 = -(x + 1);
        let back: i32 = below % width;
        proof {
            lemma_wrap_negative(x as int, width as int);
        }
        width - 1 - back
    }
}

/// For a negative coordinate the ring position is found by counting
/// backwards from the last column.
pub proof fn lemma_wrap_negative(x: int, width: int)
    requires
        x < 0,
        0 < width,
    ensures
        x % width == width - 1 - ((-(x + 1)) % width),
{
    let below = -(x + 1);
    let q = below / width;
    let r = below % width;
    assert(below == width * q + r && 0 <= r < width) by {
        vstd::arithmetic::div_mod::lemma_fundamental_div_mod(below, width);
        vstd::arithmetic::div_mod::lemma_mod_bound(below, width);
    }
    // x == -(below) - 1 == width * (-q - 1) + (width - 1 - r)
    assert(x == width * (-q - 1) + (width - 1 - r)) by (nonlinear_arith)
        requires
            x == -below - 1,
            below == width * q + r,
    ;
    vstd::arithmetic::div_mod::lemma_fundamental_div_mod_converse(
        x,
        width,
        -q - 1,
        width - 1 - r,
    );
}

/// A coordinate pair whose neighbours can be named without overflow.
pub open spec fn has_neighbours(pos: Pos) -> bool {
    i32::MIN < pos.x < i32::MAX && i32::MIN < pos.y < i32::MAX
}

impl Pos {
    /// Builds a coordinate pair.
    pub fn new(x: i32, y: i32) -> (pos: Pos)
        ensures
            pos == (Pos { x, y }),
    {
        Pos { x, y }
    }

    /// True when the row lies between the ground and the canopy of a world
    /// `height` rows tall.
    pub open spec fn in_rows(self, height: int) -> bool {
        0 <= self.y < height
    }

    /// True when the pair names a cell of a `width` by `height` world
    /// without any wrapping.
    pub open spec fn in_grid(self, width: int, height: int) -> bool {
        0 <= self.x < width && 0 <= self.y < height
    }
}

} // verus!
