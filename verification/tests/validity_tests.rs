use treevolution::cell_types::CellType;
use treevolution::config::{Config, GENOME_SIZE, RESPONSE_SIZE};
use treevolution::genome::Genome;
use treevolution::habitat::Habitat;
use treevolution::plant::Plant;
use treevolution::plant_cell::PlantCell;
use treevolution::position::Pos;
use treevolution::ratio::Ratio;
use treevolution::response::Response;
use treevolution::response_cluster::ResponseCluster;

fn rule() -> Response {
    Response {
        target_cluster_index: 3,
        height_threshold: 0,
        growth_bias_inverse: Ratio { num: 1, den: 2 },
        target_cell_type: CellType::new_leaf(),
    }
}

fn cluster() -> ResponseCluster {
    ResponseCluster { up: rule(), right: rule(), down: rule(), left: rule() }
}

fn seed(pos: Pos) -> Plant {
    Plant {
        cells: vec![],
        pos,
        has_root: false,
        energy: 1,
        lifetime: 0,
        genome: Genome { data: vec![0; GENOME_SIZE], value_counter: 0 },
        response_clusters: vec![cluster(); RESPONSE_SIZE],
    }
}

fn rooted(x: i32) -> Plant {
    let mut plant = seed(Pos { x, y: 0 });
    plant.create_root();
    plant
}

#[test]
fn cells_are_valid_up_to_one_whole() {
    assert!(CellType::Empty.is_valid());
    assert!(CellType::Leaf { sun_absorbed: 1_000_000 }.is_valid());
    assert!(!CellType::Leaf { sun_absorbed: 1_000_001 }.is_valid());
    assert!(CellType::Trunk { root_connection: 0 }.is_valid());
    assert!(!CellType::Trunk { root_connection: u32::MAX }.is_valid());
}

#[test]
fn rules_are_valid_within_their_ranges() {
    assert!(rule().is_valid());
    assert!(!Response { target_cluster_index: 30, ..rule() }.is_valid());
    assert!(!Response { height_threshold: 33, ..rule() }.is_valid());
    assert!(!Response { height_threshold: -1, ..rule() }.is_valid());
    assert!(!Response { growth_bias_inverse: Ratio { num: 2, den: 1 }, ..rule() }.is_valid());
    assert!(!Response { target_cell_type: CellType::Dead, ..rule() }.is_valid());
    let stale = CellType::Leaf { sun_absorbed: 1 };
    assert!(!Response { target_cell_type: stale, ..rule() }.is_valid());
    assert!(cluster().is_valid());
    assert!(!ResponseCluster { down: Response { target_cluster_index: 99, ..rule() }, ..cluster() }
        .is_valid());
}

#[test]
fn genome_is_valid_with_its_cursor_inside() {
    assert!(Genome::new().is_valid());
    assert!(!Genome { data: vec![], value_counter: 0 }.is_valid());
    assert!(!Genome { data: vec![1, 2], value_counter: 2 }.is_valid());
    assert!(Genome { data: vec![1, 2], value_counter: 1 }.is_valid());
}

#[test]
fn plants_are_valid_with_a_full_table_and_ownable_cells() {
    let config = Config::standard();
    assert!(Plant::new(Pos { x: 0, y: 0 }, &config).is_valid());
    assert!(rooted(2).is_valid());
    let mut short = seed(Pos { x: 0, y: 0 });
    short.response_clusters.pop();
    assert!(!short.is_valid());
    let mut odd = rooted(2);
    odd.add_cell(Pos { x: 2, y: 1 }, CellType::Dead, 0);
    assert!(!odd.is_valid());
    let mut far = rooted(2);
    far.add_cell(Pos { x: i32::MAX, y: 1 }, CellType::new_leaf(), 0);
    assert!(!far.is_valid());
    let mut lost = rooted(2);
    lost.add_cell(Pos { x: 2, y: 1 }, CellType::new_leaf(), RESPONSE_SIZE);
    assert!(!lost.is_valid());
    assert!(PlantCell::new_root(Pos { x: 0, y: 0 }).is_ownable());
}

#[test]
fn cells_in_grid_checks_every_cell() {
    let mut plant = rooted(2);
    assert!(plant.cells_in_grid(Pos { x: 3, y: 1 }));
    assert!(!plant.cells_in_grid(Pos { x: 2, y: 1 }));
    plant.add_cell(Pos { x: 2, y: 1 }, CellType::new_leaf(), 0);
    assert!(!plant.cells_in_grid(Pos { x: 3, y: 1 }));
    assert!(plant.cells_in_grid(Pos { x: 3, y: 2 }));
}

#[test]
fn worlds_are_valid_until_something_is_out_of_place() {
    let world = || Habitat::new(Pos { x: 4, y: 3 });
    assert!(world().is_valid());

    let mut habitat = world();
    habitat.plants.push(rooted(3));
    habitat.seeds.push(seed(Pos { x: 1, y: 2 }));
    habitat.ground_buffer[2].push(seed(Pos { x: 2, y: 0 }));
    habitat.dead_cells.push(Pos { x: 0, y: 2 });
    assert!(habitat.is_valid());

    let mut habitat = world();
    habitat.plants.push(seed(Pos { x: 1, y: 0 }));
    assert!(!habitat.is_valid());

    let mut habitat = world();
    habitat.plants.push(rooted(4));
    assert!(!habitat.is_valid());

    let mut habitat = world();
    habitat.seeds.push(rooted(1));
    assert!(!habitat.is_valid());

    let mut habitat = world();
    habitat.seeds.push(seed(Pos { x: 1, y: 3 }));
    assert!(!habitat.is_valid());

    let mut habitat = world();
    habitat.ground_buffer[2].push(seed(Pos { x: 1, y: 0 }));
    assert!(!habitat.is_valid());

    let mut habitat = world();
    habitat.dead_cells.push(Pos { x: -1, y: 0 });
    assert!(!habitat.is_valid());

    let mut habitat = world();
    habitat.cell_map[1].pop();
    assert!(!habitat.is_valid());

    let mut habitat = world();
    habitat.cell_map[1][1] = CellType::Leaf { sun_absorbed: 2_000_000 };
    assert!(!habitat.is_valid());
    assert!(!habitat.grid_is_valid());

    let mut habitat = world();
    habitat.ground_buffer.pop();
    assert!(!habitat.is_valid());

    let mut habitat = world();
    habitat.config.sun_power = -1;
    assert!(!habitat.is_valid());

    let mut habitat = world();
    habitat.selected_pos = Some(Pos { x: 0, y: 3 });
    assert!(!habitat.is_valid());

    let mut habitat = world();
    habitat.plants.push(rooted(3));
    habitat.selected_pos = Some(Pos { x: -1, y: 0 });
    habitat.selected_plant_ix = Some(0);
    habitat.selected_cell_ix = Some(0);
    assert!(habitat.is_valid());
    habitat.selected_cell_ix = Some(1);
    assert!(!habitat.is_valid());
    habitat.selected_cell_ix = None;
    assert!(!habitat.is_valid());
}

#[test]
fn random_leaf_lands_on_an_empty_cell_or_nowhere() {
    let mut habitat = Habitat::new(Pos { x: 4, y: 3 });
    habitat.spawn_random_cell();
    let leaves = habitat
        .cell_map
        .iter()
        .flatten()
        .filter(|cell| **cell == CellType::Leaf { sun_absorbed: 0 })
        .count();
    assert_eq!(leaves, 1);
    let mut full = Habitat::new(Pos { x: 2, y: 2 });
    for x in 0..2 {
        for y in 0..2 {
            full.set_cell(Pos { x, y }, CellType::Dead);
        }
    }
    full.spawn_random_cell();
    assert!(full.cell_map.iter().flatten().all(|cell| *cell == CellType::Dead));
}

#[test]
fn leaf_is_placed_on_an_empty_cell_only() {
    let mut habitat = Habitat::new(Pos { x: 4, y: 3 });
    habitat.set_cell(Pos { x: 1, y: 2 }, CellType::Dead);
    assert!(habitat.is_valid());
    assert!(!habitat.place_leaf(Pos { x: 1, y: 2 }));
    assert_eq!(*habitat.get_cell_at(Pos { x: 1, y: 2 }), CellType::Dead);
    assert!(habitat.place_leaf(Pos { x: 3, y: 0 }));
    assert_eq!(*habitat.get_cell_at(Pos { x: 3, y: 0 }), CellType::Leaf { sun_absorbed: 0 });
    assert!(!habitat.place_leaf(Pos { x: 3, y: 0 }));
    let taken = habitat.cell_map.iter().flatten().filter(|cell| **cell != CellType::Empty).count();
    assert_eq!(taken, 2);
}
