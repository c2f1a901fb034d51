use treevolution::cell_types::CellType;
use treevolution::config::{Config, GENOME_SIZE, RESPONSE_SIZE};
use treevolution::genome::Genome;
use treevolution::plant::Plant;
use treevolution::plant_cell::PlantCell;
use treevolution::position::Pos;
use treevolution::ratio::Ratio;
use treevolution::response::Response;
use treevolution::response_cluster::ResponseCluster;

fn rule(index: usize, gate: i32, cell: CellType) -> Response {
    let num = 0;
    Response {
        target_cluster_index: index,
        height_threshold: gate,
        growth_bias_inverse: Ratio { num, den: 1 },
        target_cell_type: cell,
    }
}

/// A cluster whose upward rule grows a trunk, whose rightward rule grows a
/// leaf, and whose other rules never fire at the energies used here.
fn up_trunk_right_leaf() -> ResponseCluster {
    ResponseCluster {
        up: rule(7, 0, CellType::new_root()),
        right: rule(8, 0, CellType::new_leaf()),
        down: rule(0, 32, CellType::new_leaf()),
        left: rule(0, 32, CellType::new_leaf()),
    }
}

fn plant_with(cells: Vec<PlantCell>, energy: i64, has_root: bool) -> Plant {
    let plant = Plant {
        cells,
        pos: Pos { x: 2, y: 0 },
        has_root,
        energy,
        lifetime: 0,
        genome: Genome { data: vec![0; GENOME_SIZE], value_counter: 0 },
        response_clusters: vec![up_trunk_right_leaf(); RESPONSE_SIZE],
    };
    assert!(plant.is_valid());
    plant
}

#[test]
fn new_plant_is_an_unrooted_seed() {
    let config = Config::standard();
    let plant = Plant::new(Pos { x: 3, y: 9 }, &config);
    assert!(plant.cells.is_empty());
    assert_eq!(plant.get_pos(), Pos { x: 3, y: 9 });
    assert!(plant.is_seed());
    assert!(!plant.has_root);
    assert_eq!(plant.get_energy(), 125_000_000);
    assert_eq!(plant.lifetime, 0);
    assert_eq!(plant.genome.data.len(), GENOME_SIZE);
    assert_eq!(plant.response_clusters.len(), RESPONSE_SIZE);
    assert!(plant.is_dead());
}

#[test]
fn rules_of_a_new_plant_are_decoded_from_its_genome() {
    let config = Config::standard();
    let plant = Plant::new(Pos { x: 0, y: 0 }, &config);
    let mut genome = Genome { data: plant.genome.data.clone(), value_counter: 0 };
    let clusters = Plant::create_responses(&mut genome, &config);
    assert_eq!(clusters, plant.response_clusters);
    assert_eq!(genome.value_counter, 600);
    assert_eq!(plant.genome.value_counter, 600);
}

#[test]
fn new_plant_with_root_owns_its_root() {
    let config = Config::standard();
    let plant = Plant::new_with_root(Pos { x: 4, y: 0 }, &config);
    assert!(plant.has_root);
    assert!(!plant.is_seed());
    assert_eq!(
        plant.cells,
        vec![PlantCell {
            pos: Pos { x: 4, y: 0 },
            cell_type: CellType::Trunk { root_connection: 1_000_000 },
            response_ix: 0,
        }]
    );
    assert!(!plant.is_dead());
    assert_eq!(plant.get_cells(), vec![(Pos { x: 4, y: 0 }, CellType::new_root())]);
}

#[test]
fn offspring_is_endowed_by_the_age_of_its_parent() {
    let mut config = Config::standard();
    config.mutation_rate = Ratio { num: 0, den: 1 };
    let mut parent = Plant::new_with_root(Pos { x: 4, y: 0 }, &config);
    parent.lifetime = 17;
    let child = parent.new_offspring(Pos { x: 6, y: 3 }, &config);
    assert_eq!(child.get_energy(), 125_000_000 + 17 * 1_000_000);
    assert_eq!(child.get_pos(), Pos { x: 6, y: 3 });
    assert!(child.is_seed());
    assert!(child.cells.is_empty());
    assert_eq!(child.lifetime, 0);
    assert_eq!(child.genome.data, parent.genome.data);
    assert_eq!(child.response_clusters, parent.response_clusters);
}

#[test]
fn offspring_rules_come_from_the_offspring_genome() {
    let mut config = Config::standard();
    config.mutation_rate = Ratio { num: 1, den: 1 };
    let parent = Plant::new_with_root(Pos { x: 4, y: 0 }, &config);
    let child = parent.new_offspring(Pos { x: 6, y: 3 }, &config);
    let mut genome = Genome { data: child.genome.data.clone(), value_counter: 0 };
    assert_eq!(Plant::create_responses(&mut genome, &config), child.response_clusters);
    assert_ne!(child.genome.data, parent.genome.data);
}

#[test]
fn offspring_energy_saturates() {
    let mut config = Config::standard();
    config.lifetime_factor = 1_000_000_000_000;
    let mut parent = Plant::new(Pos { x: 0, y: 0 }, &config);
    parent.lifetime = usize::MAX;
    let child = parent.new_offspring(Pos { x: 0, y: 0 }, &config);
    assert_eq!(child.get_energy(), i64::MAX);
}

#[test]
fn energy_bookkeeping() {
    let mut plant = plant_with(vec![], 10, false);
    assert!(plant.has_energy());
    plant.give_energy(-10);
    assert_eq!(plant.get_energy(), 0);
    assert!(!plant.has_energy());
    plant.give_energy(-5);
    assert_eq!(plant.get_energy(), -5);
    plant.give_energy(i64::MAX);
    plant.give_energy(i64::MAX);
    assert_eq!(plant.get_energy(), i64::MAX);
    plant.give_energy(i64::MIN);
    plant.give_energy(i64::MIN);
    assert_eq!(plant.get_energy(), i64::MIN);
}

#[test]
fn age_counts_up_and_stops_at_the_limit() {
    let mut plant = plant_with(vec![], 0, true);
    plant.increase_age();
    plant.increase_age();
    assert_eq!(plant.lifetime, 2);
    plant.lifetime = usize::MAX;
    plant.increase_age();
    assert_eq!(plant.lifetime, usize::MAX);
}

#[test]
fn death_comes_with_age_beyond_what_size_grants() {
    let root = PlantCell::new_root(Pos { x: 2, y: 0 });
    let mut plant = plant_with(vec![root], 0, true);
    plant.lifetime = 43;
    assert!(!plant.is_too_old());
    assert!(!plant.is_dead());
    plant.lifetime = 44;
    assert!(plant.is_too_old());
    assert!(plant.is_dead());
    plant.add_cell(Pos { x: 2, y: 1 }, CellType::new_leaf(), 0);
    assert!(!plant.is_dead());
    plant.has_root = false;
    assert!(plant.is_dead());
}

#[test]
fn unrooted_plant_proposes_nothing() {
    let config = Config::standard();
    let seed = plant_with(vec![], i64::MAX, false);
    assert!(seed.create_growth_proposals(&config).is_empty());
    let fresh = Plant::new(Pos { x: 0, y: 0 }, &config);
    assert!(fresh.create_growth_proposals(&config).is_empty());
    let odd = plant_with(vec![PlantCell::new_root(Pos { x: 2, y: 0 })], i64::MAX, false);
    assert!(odd.create_growth_proposals(&config).is_empty());
}

#[test]
fn trunks_propose_and_leaves_do_not() {
    let config = Config::standard();
    let cells = vec![
        PlantCell::new_root(Pos { x: 2, y: 0 }),
        PlantCell::new(Pos { x: 3, y: 0 }, CellType::Leaf { sun_absorbed: 0 }, 0),
        PlantCell::new(Pos { x: 2, y: 1 }, CellType::Trunk { root_connection: 800_000 }, 7),
    ];
    let plant = plant_with(cells, 100_000_000, true);
    let proposals = plant.create_growth_proposals(&config);
    assert_eq!(
        proposals,
        vec![
            (Pos { x: 2, y: 1 }, 7, CellType::Trunk { root_connection: 800_000 }, 1_000_000),
            (Pos { x: 3, y: 0 }, 8, CellType::Leaf { sun_absorbed: 0 }, 1_000_000),
            (Pos { x: 2, y: 2 }, 7, CellType::Trunk { root_connection: 640_000 }, 1_250_000),
            (Pos { x: 3, y: 1 }, 8, CellType::Leaf { sun_absorbed: 0 }, 1_250_000),
        ]
    );
}

#[test]
fn root_connection_decays_along_a_chain() {
    let config = Config::standard();
    let mut connection = 1_000_000u32;
    let mut exact = 1.0f64;
    for step in 1..=40 {
        let cell = PlantCell::new(
            Pos { x: 2, y: 0 },
            CellType::Trunk { root_connection: connection },
            0,
        );
        let plant = plant_with(vec![cell], i64::MAX, true);
        let proposals = plant.create_growth_proposals(&config);
        let next = match proposals[0].2 {
            CellType::Trunk { root_connection } => root_connection,
            _ => panic!("the upward rule grows a trunk"),
        };
        exact *= 0.8;
        assert_eq!(next as u64, connection as u64 * 4 / 5);
        assert!(next <= connection);
        assert!((next as f64) <= exact * 1e6 + 1e-6, "step {}", step);
        assert!((next as f64) > exact * 1e6 - 5.0, "step {}", step);
        connection = next;
    }
    assert_eq!(connection, 131);
}

#[test]
fn disconnected_trunk_proposes_nothing() {
    let config = Config::standard();
    let cell = PlantCell::new(Pos { x: 2, y: 0 }, CellType::Trunk { root_connection: 0 }, 0);
    let plant = plant_with(vec![cell], i64::MAX, true);
    assert!(plant.create_growth_proposals(&config).is_empty());
}

#[test]
fn cell_proposals_of_a_leaf_are_empty() {
    let config = Config::standard();
    let leaf = PlantCell::new(Pos { x: 2, y: 1 }, CellType::new_leaf(), 0);
    let plant = plant_with(vec![leaf], i64::MAX, true);
    assert!(plant.cell_proposals(&leaf, &config).is_empty());
}

#[test]
fn germination_appends_the_root() {
    let mut plant = plant_with(vec![], 5, false);
    plant.set_pos(Pos { x: 9, y: 0 });
    plant.create_root();
    assert!(plant.has_root);
    assert_eq!(plant.cells, vec![PlantCell::new_root(Pos { x: 9, y: 0 })]);
    assert_eq!(plant.get_energy(), 5);
}

#[test]
fn cells_are_found_by_position() {
    let cells = vec![
        PlantCell::new_root(Pos { x: 2, y: 0 }),
        PlantCell::new(Pos { x: 2, y: 1 }, CellType::new_leaf(), 0),
        PlantCell::new(Pos { x: 2, y: 1 }, CellType::new_root(), 0),
    ];
    let plant = plant_with(cells, 0, true);
    assert_eq!(plant.get_cell_ix_at(Pos { x: 2, y: 0 }), Some(0));
    assert_eq!(plant.get_cell_ix_at(Pos { x: 2, y: 1 }), Some(1));
    assert_eq!(plant.get_cell_ix_at(Pos { x: 1, y: 1 }), None);
}

#[test]
fn plant_cell_accessors() {
    let cell = PlantCell::new(Pos { x: 1, y: 2 }, CellType::new_leaf(), 11);
    assert_eq!(cell.get_pos(), Pos { x: 1, y: 2 });
    assert_eq!(cell.get_cell_type(), CellType::Leaf { sun_absorbed: 0 });
    assert_eq!(cell.get_response_ix(), 11);
    let root = PlantCell::new_root(Pos { x: 0, y: 0 });
    assert_eq!(root.get_response_ix(), 0);
    assert_eq!(root.get_cell_type().get_root_con(), 1_000_000);
}
