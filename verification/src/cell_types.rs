//! What a cell of the world can hold, and the colour each content shows.

use vstd::prelude::*;
use crate::config::Config;
use crate::ratio::{lemma_product_bounded, Ratio, UNIT};

verus! {

/// The content of one grid cell.
#[derive(Clone, Copy, Debug, PartialEq, Eq, Structural)]
pub enum CellType {
    /// Nothing: light passes, growth may enter.
    Empty,
    /// A leaf and the light it caught in the latest sunlight pass, in
    /// millionths of the light that entered the column.
    Leaf { sun_absorbed: u32 },
    /// A trunk and the strength of its link to the root, in millionths.
    Trunk { root_connection: u32 },
    /// The remains of a plant.
    Dead,
    /// A seed in flight, shown for display only.
    Seed,
}

/// A colour as three bytes.
#[derive(Clone, Copy, Debug, PartialEq, Eq, Structural)]
pub struct Rgb {
    pub r: u8,
    pub g: u8,
    pub b: u8,
}

/// Colour of an empty cell.
pub open spec fn empty_color() -> Rgb {
    Rgb { r: 255, g: 255, b: 255 }
}

/// Colour of a leaf that absorbs all it can.
pub open spec fn vivid_leaf_color() -> Rgb {
    Rgb { r: 0, g: 158, b: 45 }
}

/// Colour of a leaf that absorbs nothing.
pub open spec fn dried_leaf_color() -> Rgb {
    Rgb { r: 185, g: 142, b: 34 }
}

/// Colour of a trunk.
pub open spec fn trunk_color() -> Rgb {
    Rgb { r: 127, g: 107, b: 79 }
}

/// Colour of a seed in flight.
pub open spec fn seed_color() -> Rgb {
    Rgb { r: 252, g: 249, b: 0 }
}

/// Colour of a dead cell.
pub open spec fn dead_color() -> Rgb {
    Rgb { r: 130, g: 130, b: 130 }
}

/// One colour channel of a leaf: the weighted mean of the vivid and the
/// dried channel, with weight `absorbed` out of `full`, rounded down.
pub open spec fn blend_channel(vivid: int, dried: int, absorbed: int, full: int) -> int {
    (vivid * absorbed + dried * (full - absorbed)) / full
}

/// The colour of a leaf that caught `sun_absorbed` where `rate` is the most
/// a leaf can catch of the full light. Light beyond that counts as the most.
pub open spec fn leaf_color(sun_absorbed: int, rate: Ratio) -> Rgb {
    let full = rate.scale_spec(UNIT as int);
    let absorbed = if sun_absorbed <= full {
        sun_absorbed
    } else {
        full
    };
    if full <= 0 {
        dried_leaf_color()
    } else {
        Rgb {
            r: blend_channel(
                vivid_leaf_color().r as int,
                dried_leaf_color().r as int,
                absorbed,
                full,
            ) as u8,
            g: blend_channel(
                vivid_leaf_color().g as int,
                dried_leaf_color().g as int,
                absorbed,
                full,
            ) as u8,
            b: blend_channel(
                vivid_leaf_color().b as int,
                dried_leaf_color().b as int,
                absorbed,
                full,
            ) as u8,
        }
    }
}

/// A blend of two bytes is a byte.
pub proof fn lemma_blend_is_byte(vivid: int, dried: int, absorbed: int, full: int)
    requires
        0 <= vivid <= 255,
        0 <= dried <= 255,
        0 <= absorbed <= full,
        0 < full,
    ensures
        0 <= blend_channel(vivid, dried, absorbed, full) <= 255,
{
    let rest = full - absorbed;
    lemma_product_bounded(vivid, absorbed, 255, absorbed);
    lemma_product_bounded(dried, rest, 255, rest);
    let total = vivid * absorbed + dried * rest;
    assert(255 * absorbed + 255 * rest == 255 * full) by (nonlinear_arith)
        requires
            rest == full - absorbed,
    ;
    assert(0 <= total / full <= 255) by (nonlinear_arith)
        requires
            0 <= total <= 255 * full,
            0 < full,
    ;
}

/// Computes one channel of a leaf colour.
fn blend(vivid: u8, dried: u8, absorbed: u32, full: u32) -> (channel: u8)
    requires
        absorbed <= full,
        0 < full,
    ensures
        channel == blend_channel(vivid as int, dried as int, absorbed as int, full as int),
{
    let rest: u32 = full - absorbed;
    proof {
        lemma_blend_is_byte(vivid as int, dried as int, absorbed as int, full as int);
        lemma_product_bounded(vivid as int, absorbed as int, 255, u32::MAX as int);
        lemma_product_bounded(dried as int, rest as int, 255, u32::MAX as int);
    }
    let total: u64 = (vivid as u64) * (absorbed as u64) + (dried as u64) * (rest as u64);
    (total / (full as u64)) as u8
}

impl CellType {
    /// Stored fractions never exceed one.
    pub open spec fn wf(self) -> bool {
        match self {
            CellType::Leaf { sun_absorbed } => sun_absorbed <= UNIT,
            CellType::Trunk { root_connection } => root_connection <= UNIT,
            _ => true,
        }
    }

    /// Runtime form of [`CellType::wf`].
    pub fn is_valid(&self) -> (valid: bool)
        ensures
            valid == self.wf(),
    {
        match self {
            CellType::Leaf { sun_absorbed } => *sun_absorbed <= UNIT,
            CellType::Trunk { root_connection } => *root_connection <= UNIT,
            _ => true,
        }
    }

    /// A leaf that has not yet seen a sunlight pass.
    pub fn new_leaf() -> (cell: CellType)
        ensures
            cell == (CellType::Leaf { sun_absorbed: 0 }),
    {
        CellType::Leaf { sun_absorbed: 0 }
    }

    /// A trunk with full connection to the root.
    pub fn new_root() -> (cell: CellType)
        ensures
            cell == (CellType::Trunk { root_connection: UNIT }),
    {
        CellType::Trunk { root_connection: UNIT }
    }

    /// The root connection of a trunk.
    pub fn get_root_con(&self) -> (connection: u32)
        requires
            self is Trunk,
        ensures
            connection == self->root_connection,
    {
        match self {
            CellType::Trunk { root_connection } => *root_connection,
            _ => 0,
        }
    }
}

/// Anything that shows as one colour on the display.
pub trait ColorConvert {
    /// The colour shown under the given parameters.
    spec fn color_spec(&self, config: Config) -> Rgb;

    /// Resolves the display colour.
    fn get_color(&self, config: &Config) -> (color: Rgb)
        requires
            config.wf(),
        ensures
            color == self.color_spec(*config),
    ;
}

impl ColorConvert for CellType {
    /// Every content has a fixed colour but a leaf, which fades from vivid
    /// to dried as it catches less light.
    open spec fn color_spec(&self, config: Config) -> Rgb {
        match *self {
            CellType::Empty => empty_color(),
            CellType::Leaf { sun_absorbed } => leaf_color(
                sun_absorbed as int,
                config.leaf_absorb_rate,
            ),
            CellType::Trunk { .. } => trunk_color(),
            CellType::Seed => seed_color(),
            CellType::Dead => dead_color(),
        }
    }

    fn get_color(&self, config: &Config) -> (color: Rgb) {
        match self {
            CellType::Empty => Rgb { r: 255, g: 255, b: 255 },
            CellType::Leaf { sun_absorbed } => {
                let full: u32 = config.leaf_absorb_rate.scale(UNIT);
                if full == 0 {
                    Rgb { r: 185, g: 142, b: 34 }
                } else {
                    let absorbed: u32 = if *sun_absorbed <= full {
                        *sun_absorbed
                    } else {
                        full
                    };
                    Rgb {
                        r: blend(0, 185, absorbed, full),
                        g: blend(158, 142, absorbed, full),
                        b: blend(45, 34, absorbed, full),
                    }
                }
            },
            CellType::Trunk { .. } => Rgb { r: 127, g: 107, b: 79 },
            CellType::Seed => Rgb { r: 252, g: 249, b: 0 },
            CellType::Dead => Rgb { r: 130, g: 130, b: 130 },
        }
    }
}

} // verus!
