use treevolution::cell_types::CellType;
use treevolution::config::{GENOME_SIZE, RESPONSE_SIZE};
use treevolution::genome::Genome;
use treevolution::habitat::Habitat;
use treevolution::plant::{Plant, Proposal};
use treevolution::plant_cell::PlantCell;
use treevolution::position::Pos;
use treevolution::ratio::Ratio;
use treevolution::response::Response;
use treevolution::response_cluster::ResponseCluster;

fn rule(index: usize, open: bool, cell: CellType) -> Response {
    Response {
        target_cluster_index: index,
        height_threshold: if open { 0 } else { 32 },
        growth_bias_inverse: Ratio { num: 0, den: 1 },
        target_cell_type: cell,
    }
}

fn all_directions() -> ResponseCluster {
    ResponseCluster {
        up: rule(1, true, CellType::new_root()),
        right: rule(2, true, CellType::new_leaf()),
        down: rule(3, true, CellType::new_leaf()),
        left: rule(4, true, CellType::new_leaf()),
    }
}

fn rooted(x: i32, energy: i64, rules: ResponseCluster) -> Plant {
    Plant {
        cells: vec![PlantCell::new_root(Pos { x, y: 0 })],
        pos: Pos { x, y: 0 },
        has_root: true,
        energy,
        lifetime: 0,
        genome: Genome { data: vec![0; GENOME_SIZE], value_counter: 0 },
        response_clusters: vec![rules; RESPONSE_SIZE],
    }
}

fn world(width: i32, height: i32) -> Habitat {
    Habitat::new(Pos { x: width, y: height })
}

#[test]
fn candidates_have_free_targets_inside_the_rows() {
    let mut habitat = world(4, 3);
    habitat.plants.push(rooted(0, 10_000_000, all_directions()));
    habitat.set_cell(Pos { x: 1, y: 0 }, CellType::Dead);
    assert!(habitat.is_valid());
    let candidates = habitat.valid_candidates(&habitat.plants[0]);
    assert_eq!(
        candidates,
        vec![
            (Pos { x: 0, y: 1 }, 1, CellType::Trunk { root_connection: 800_000 }, 1_000_000),
            (Pos { x: -1, y: 0 }, 4, CellType::Leaf { sun_absorbed: 0 }, 1_000_000),
        ]
    );
    habitat.set_cell(Pos { x: 3, y: 0 }, CellType::Seed);
    assert_eq!(habitat.valid_candidates(&habitat.plants[0]).len(), 1);
}

#[test]
fn one_growth_is_chosen_from_the_pool() {
    let pool: Vec<Proposal> = (0..5)
        .map(|x| (Pos { x, y: 1 }, x as usize, CellType::new_leaf(), 1_000_000 + x as i64))
        .collect();
    let mut seen = [false; 5];
    for _ in 0..400 {
        let chosen = Habitat::choose_growths(pool.clone());
        assert_eq!(chosen.len(), 1);
        assert!(pool.contains(&chosen[0]));
        seen[chosen[0].1] = true;
    }
    assert!(seen.iter().all(|hit| *hit));
    assert!(Habitat::choose_growths(vec![]).is_empty());
    assert_eq!(Habitat::choose_growths(pool[..1].to_vec()), pool[..1].to_vec());
}

#[test]
fn growths_are_decided_for_every_plant() {
    let mut habitat = world(6, 3);
    habitat.plants.push(rooted(0, 10_000_000, all_directions()));
    habitat.plants.push(rooted(3, -1, all_directions()));
    assert!(habitat.is_valid());
    let growths = habitat.create_growths();
    assert_eq!(growths.len(), 2);
    assert_eq!(growths[0].len(), 1);
    assert!(growths[1].is_empty());
}

#[test]
fn growth_adds_the_cell_on_the_ring_and_charges_for_it() {
    let mut habitat = world(4, 3);
    habitat.plants.push(rooted(0, 10_000_000, all_directions()));
    habitat.plants.push(rooted(2, 9, all_directions()));
    let growths: Vec<Vec<Proposal>> = vec![
        vec![
            (Pos { x: -1, y: 0 }, 4, CellType::Leaf { sun_absorbed: 0 }, 1_000_000),
            (Pos { x: 4, y: 2 }, 2, CellType::Trunk { root_connection: 640_000 }, 1_250_000),
        ],
        vec![],
    ];
    assert!(habitat.is_valid());
    habitat.apply_growths(&growths);
    assert_eq!(
        habitat.plants[0].cells,
        vec![
            PlantCell::new_root(Pos { x: 0, y: 0 }),
            PlantCell::new(Pos { x: 3, y: 0 }, CellType::Leaf { sun_absorbed: 0 }, 4),
            PlantCell::new(Pos { x: 0, y: 2 }, CellType::Trunk { root_connection: 640_000 }, 2),
        ]
    );
    assert_eq!(habitat.plants[0].energy, 10_000_000 - 2_250_000);
    assert_eq!(habitat.plants[1].cells.len(), 1);
    assert_eq!(habitat.plants[1].energy, 9);
}

#[test]
fn growing_adds_at_most_one_cell_per_plant() {
    let mut habitat = world(6, 3);
    habitat.plants.push(rooted(0, 10_000_000, all_directions()));
    habitat.plants.push(rooted(3, 10_000_000, all_directions()));
    assert!(habitat.is_valid());
    habitat.grow();
    for plant in &habitat.plants {
        assert_eq!(plant.cells.len(), 2);
        assert_eq!(plant.energy, 9_000_000);
        let grown = plant.cells[1];
        assert!(0 <= grown.pos.x && grown.pos.x < 6);
        assert!(0 <= grown.pos.y && grown.pos.y < 3);
    }
}
