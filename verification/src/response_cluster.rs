//! The four growth rules a growing cell consults, one per compass
//! direction.

use vstd::prelude::*;
use crate::cell_types::CellType;
use crate::config::{Config, CLUSTER_READS, RESPONSE_READS};
use crate::genome::{Genome, GenomeView};
use crate::position::Pos;
use crate::response::{decode_response, Response};

verus! {

/// Four rules bound to the offsets up `(0, +1)`, right `(+1, 0)`, down
/// `(0, -1)` and left `(-1, 0)`.
#[derive(Clone, Copy, Debug, PartialEq, Eq, Structural)]
pub struct ResponseCluster {
    pub up: Response,
    pub right: Response,
    pub down: Response,
    pub left: Response,
}

/// What a rule offers when it fires: where the new cell goes, which cluster
/// it will consult, and what it is.
pub type Target = (Pos, usize, CellType);

/// The cluster that the next twenty reads of `genome` encode: four rules in
/// the order up, right, down, left.
pub open spec fn decode_cluster(genome: GenomeView, config: Config) -> ResponseCluster {
    ResponseCluster {
        up: decode_response(genome, config),
        right: decode_response(genome.advance(RESPONSE_READS as nat), config),
        down: decode_response(genome.advance(2 * RESPONSE_READS as nat), config),
        left: decode_response(genome.advance(3 * RESPONSE_READS as nat), config),
    }
}

/// The offer of one rule for a cell at `pos`: its target at `place` if the
/// rule fires, and nothing otherwise.
pub open spec fn offer(
    rule: Response,
    place: Pos,
    pos: Pos,
    current_energy: i64,
    root_connection: u32,
    config: Config,
) -> Seq<Target> {
    if rule.is_active_spec(pos, current_energy, root_connection, config) {
        seq![(place, rule.target_cluster_index, rule.target_cell_type)]
    } else {
        Seq::empty()
    }
}

/// Advancing twice is advancing by the sum.
pub proof fn lemma_advance_sum(genome: GenomeView, first: nat, second: nat)
    requires
        genome.wf(),
    ensures
        genome.advance(first).wf(),
        genome.advance(first).advance(second) == genome.advance(first + second),
{
    let len = genome.data.len() as int;
    let cursor = genome.cursor as int;
    vstd::arithmetic::div_mod::lemma_mod_bound(cursor + first, len);
    vstd::arithmetic::div_mod::lemma_add_mod_noop(cursor + first, second as int, len);
    vstd::arithmetic::div_mod::lemma_add_mod_noop((cursor + first) % len, second as int, len);
    vstd::arithmetic::div_mod::lemma_mod_twice(cursor + first, len);
}

impl ResponseCluster {
    /// Every rule of the cluster is well formed.
    pub open spec fn wf(self) -> bool {
        self.up.wf() && self.right.wf() && self.down.wf() && self.left.wf()
    }

    /// Runtime form of [`ResponseCluster::wf`].
    pub fn is_valid(&self) -> (valid: bool)
        ensures
            valid == self.wf(),
    {
        self.up.is_valid() && self.right.is_valid() && self.down.is_valid() && self.left.is_valid()
    }

    /// Decodes a cluster from twenty consecutive reads.
    pub fn new(genome: &mut Genome, config: &Config) -> (cluster: ResponseCluster)
        requires
            old(genome).wf(),
            config.wf(),
        ensures
            final(genome).wf(),
            final(genome)@ == old(genome)@.advance(CLUSTER_READS as nat),
            cluster == decode_cluster(old(genome)@, *config),
            cluster.wf(),
    {
        proof {
            lemma_advance_sum(old(genome)@, 5, 5);
            lemma_advance_sum(old(genome)@, 10, 5);
            lemma_advance_sum(old(genome)@, 15, 5);
        }
        let up: Response = Response::new(genome, config);
        let right: Response = Response::new(genome, config);
        let down: Response = Response::new(genome, config);
        let left: Response = Response::new(genome, config);
        ResponseCluster { up, right, down, left }
    }

    /// The offers of the four rules for a cell at `pos`, in the order up,
    /// right, down, left.
    pub open spec fn targets_spec(
        self,
        pos: Pos,
        current_energy: i64,
        root_connection: u32,
        config: Config,
    ) -> Seq<Target> {
        offer(
            self.up,
            Pos { x: pos.x, y: (pos.y + 1) as i32 },
            pos,
            current_energy,
            root_connection,
            config,
        ) + offer(
            self.right,
            Pos { x: (pos.x + 1) as i32, y: pos.y },
            pos,
            current_energy,
            root_connection,
            config,
        ) + offer(
            self.down,
            Pos { x: pos.x, y: (pos.y - 1) as i32 },
            pos,
            current_energy,
            root_connection,
            config,
        ) + offer(
            self.left,
            Pos { x: (pos.x - 1) as i32, y: pos.y },
            pos,
            current_energy,
            root_connection,
            config,
        )
    }

    /// Evaluates the four rules for a cell at `pos` and returns, for each
    /// rule that fires, the neighbouring position it targets, the cluster
    /// index for the new cell, and the new cell's type.
    pub fn get_response_ix_with_position(
        &self,
        pos: &Pos,
        current_energy: i64,
        root_connection: u32,
        config: &Config,
    ) -> (targets: Vec<Target>)
        requires
            config.wf(),
            i32::MIN < pos.x < i32::MAX,
            i32::MIN < pos.y < i32::MAX,
        ensures
            targets@ == self.targets_spec(*pos, current_energy, root_connection, *config),
            targets@.len() <= 4,
    {
        let mut out: Vec<Target> = Vec::with_capacity(4);
        let x: i32 = pos.x;
        let y: i32 = pos.y;
        if self.up.is_active(pos, current_energy, root_connection, config) {
            out.push((Pos { x, y: y + 1 }, self.up.get_cluster_index(), self.up.get_cell_type()));
        }
        assert(out@ =~= offer(
            self.up,
            Pos { x, y: (y + 1) as i32 },
            *pos,
            current_energy,
            root_connection,
            *config,
        ));
        let ghost after_up = out@;
        if self.right.is_active(pos, current_energy, root_connection, config) {
            out.push(
                (Pos { x: x + 1, y }, self.right.get_cluster_index(), self.right.get_cell_type()),
            );
        }
        assert(out@ =~= after_up + offer(
            self.right,
            Pos { x: (x + 1) as i32, y },
            *pos,
            current_energy,
            root_connection,
            *config,
        ));
        let ghost after_right = out@;
        if self.down.is_active(pos, current_energy, root_connection, config) {
            out.push(
                (Pos { x, y: y - 1 }, self.down.get_cluster_index(), self.down.get_cell_type()),
            );
        }
        assert(out@ =~= after_right + offer(
            self.down,
            Pos { x, y: (y - 1) as i32 },
            *pos,
            current_energy,
            root_connection,
            *config,
        ));
        let ghost after_down = out@;
        if self.left.is_active(pos, current_energy, root_connection, config) {
            out.push(
                (Pos { x: x - 1, y }, self.left.get_cluster_index(), self.left.get_cell_type()),
            );
        }
        assert(out@ =~= after_down + offer(
            self.left,
            Pos { x: (x - 1) as i32, y },
            *pos,
            current_energy,
            root_connection,
            *config,
        ));
        out
    }

    /// The rule for a direction given by name.
    pub fn get_response(&self, direction: &str) -> (rule: &Response)
        requires
            direction@ == "up"@ || direction@ == "right"@ || direction@ == "down"@ || direction@
                == "left"@,
        ensures
            direction@ == "up"@ ==> *rule == self.up,
            direction@ == "right"@ ==> *rule == self.right,
            direction@ == "down"@ ==> *rule == self.down,
            direction@ == "left"@ ==> *rule == self.left,
    {
        proof {
            reveal_strlit("up");
            reveal_strlit("right");
            reveal_strlit("down");
            reveal_strlit("left");
            assert("up"@.len() == 2 && "right"@.len() == 5 && "down"@.len() == 4 && "left"@.len()
                == 4);
            assert("down"@[0] != "left"@[0]);
        }
        let name: String = direction.to_owned();
        if name == "up".to_owned() {
            &self.up
        } else if name == "right".to_owned() {
            &self.right
        } else if name == "down".to_owned() {
            &self.down
        } else {
            &self.left
        }
    }
}

} // verus!
