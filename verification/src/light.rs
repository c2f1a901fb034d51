//! The sunlight pass: light enters a column at the canopy with full
//! strength and is absorbed by leaves and blocked by trunks and dead cells
//! on its way down.

use vstd::prelude::*;
use crate::cell_types::CellType;
use crate::config::Config;
use crate::ratio::{lemma_scale_bounded, UNIT};

verus! {

/// The light that a cell takes out of the `light` that reaches it: a leaf
/// absorbs its share, a trunk or a dead cell blocks its share, and anything
/// else lets all light pass.
pub open spec fn taken(cell: CellType, light: int, config: Config) -> int {
    match cell {
        CellType::Leaf { .. } => config.leaf_absorb_rate.scale_spec(light),
        CellType::Trunk { .. } | CellType::Dead => config.trunk_absorb_rate.scale_spec(light),
        CellType::Empty | CellType::Seed => 0,
    }
}

/// The light that reaches the cell at `depth`, counted from the canopy end
/// of the column.
pub open spec fn light_at(column: Seq<CellType>, depth: nat, config: Config) -> int
    decreases depth,
{
    if depth == 0 {
        UNIT as int
    } else {
        let above = light_at(column, (depth - 1) as nat, config);
        above - taken(column[depth - 1], above, config)
    }
}

/// A cell after light of the given strength has reached it: a leaf records
/// what it absorbed; nothing else changes.
pub open spec fn lit_cell(cell: CellType, light: int, config: Config) -> CellType {
    match cell {
        CellType::Leaf { .. } => CellType::Leaf {
            sun_absorbed: config.leaf_absorb_rate.scale_spec(light) as u32,
        },
        other => other,
    }
}

/// A column after the sunlight pass.
pub open spec fn lit(column: Seq<CellType>, config: Config) -> Seq<CellType> {
    Seq::new(
        column.len(),
        |i: int| lit_cell(column[i], light_at(column, i as nat, config), config),
    )
}

/// The light that leaves the column at its far end.
pub open spec fn exiting(column: Seq<CellType>, config: Config) -> int {
    light_at(column, column.len(), config)
}

/// The light recorded by the leaves among the first `count` cells.
pub open spec fn absorbed_in_first(column: Seq<CellType>, count: nat) -> int
    decreases count,
{
    if count == 0 {
        0
    } else {
        absorbed_in_first(column, (count - 1) as nat) + match column[count - 1] {
            CellType::Leaf { sun_absorbed } => sun_absorbed as int,
            _ => 0,
        }
    }
}

/// The light blocked by the trunks and dead cells among the first `count`
/// cells.
pub open spec fn blocked_in_first(column: Seq<CellType>, count: nat, config: Config) -> int
    decreases count,
{
    if count == 0 {
        0
    } else {
        blocked_in_first(column, (count - 1) as nat, config) + match column[count - 1] {
            CellType::Trunk { .. } | CellType::Dead => taken(
                column[count - 1],
                light_at(column, (count - 1) as nat, config),
                config,
            ),
            _ => 0,
        }
    }
}

/// True when every cell of the column lets all light pass.
pub open spec fn transparent(column: Seq<CellType>) -> bool {
    forall|i: int|
        0 <= i < column.len() ==> (#[trigger] column[i]) is Empty || column[i] is Seed
}

/// Light never grows on its way down and never turns negative.
pub proof fn lemma_light_bounded(column: Seq<CellType>, depth: nat, config: Config)
    requires
        config.wf(),
    ensures
        0 <= light_at(column, depth, config) <= UNIT,
        0 <= taken(column[depth as int], light_at(column, depth, config), config) <= light_at(
            column,
            depth,
            config,
        ),
    decreases depth,
{
    if depth > 0 {
        lemma_light_bounded(column, (depth - 1) as nat, config);
    }
    let light = light_at(column, depth, config);
    lemma_scale_bounded(
        light,
        config.leaf_absorb_rate.num as int,
        config.leaf_absorb_rate.den as int,
    );
    lemma_scale_bounded(
        light,
        config.trunk_absorb_rate.num as int,
        config.trunk_absorb_rate.den as int,
    );
}

/// Conservation down to any depth: what the leaves above have recorded,
/// what the trunks and dead cells above have blocked, and what still
/// travels on add up to the light that entered.
pub proof fn lemma_light_conserved_to(column: Seq<CellType>, depth: nat, config: Config)
    requires
        config.wf(),
        depth <= column.len(),
    ensures
        absorbed_in_first(lit(column, config), depth) + blocked_in_first(column, depth, config)
            + light_at(column, depth, config) == UNIT,
    decreases depth,
{
    if depth > 0 {
        let above = (depth - 1) as nat;
        lemma_light_conserved_to(column, above, config);
        lemma_light_bounded(column, above, config);
    }
}

/// Sunlight is conserved in every column: the light absorbed by leaves, the
/// light blocked by trunks and dead cells, and the light that exits at the
/// far end add up to exactly the light that entered.
pub proof fn lemma_sunlight_conserved(column: Seq<CellType>, config: Config)
    requires
        config.wf(),
    ensures
        absorbed_in_first(lit(column, config), column.len()) + blocked_in_first(
            column,
            column.len(),
            config,
        ) + exiting(column, config) == UNIT,
{
    lemma_light_conserved_to(column, column.len(), config);
}

/// A column that holds nothing but empty cells and seeds passes the full
/// light through unchanged and is itself unchanged by the pass.
pub proof fn lemma_transparent_column(column: Seq<CellType>, config: Config)
    requires
        transparent(column),
    ensures
        exiting(column, config) == UNIT,
        lit(column, config) == column,
{
    lemma_transparent_to(column, column.len(), config);
    assert(lit(column, config) =~= column);
}

/// Light is undiminished above the first cell that takes any.
pub proof fn lemma_transparent_to(column: Seq<CellType>, depth: nat, config: Config)
    requires
        transparent(column),
        depth <= column.len(),
    ensures
        light_at(column, depth, config) == UNIT,
    decreases depth,
{
    if depth > 0 {
        lemma_transparent_to(column, (depth - 1) as nat, config);
    }
}

/// Every cell of a lit column holds a valid fraction if the column did
/// before.
pub proof fn lemma_lit_wf(column: Seq<CellType>, config: Config, i: int)
    requires
        config.wf(),
        0 <= i < column.len(),
        column[i].wf(),
    ensures
        lit(column, config)[i].wf(),
{
    lemma_light_bounded(column, i as nat, config);
}

} // verus!
