use treevolution::cell_types::CellType;
use treevolution::config::{Config, GENOME_SIZE, RESPONSE_SIZE};
use treevolution::genome::Genome;
use treevolution::habitat::Habitat;
use treevolution::plant::Plant;
use treevolution::plant_cell::PlantCell;
use treevolution::position::Pos;
use treevolution::ratio::Ratio;
use treevolution::response::Response;
use treevolution::response_cluster::ResponseCluster;

fn rule(index: usize, gate: i32, cell: CellType) -> Response {
    Response {
        target_cluster_index: index,
        height_threshold: gate,
        growth_bias_inverse: Ratio { num: 0, den: 1 },
        target_cell_type: cell,
    }
}

fn cluster(up: bool, right: bool, down: bool, left: bool) -> ResponseCluster {
    let gate = |open: bool| if open { 0 } else { 32 };
    ResponseCluster {
        up: rule(1, gate(up), CellType::new_root()),
        right: rule(2, gate(right), CellType::new_leaf()),
        down: rule(3, gate(down), CellType::new_leaf()),
        left: rule(4, gate(left), CellType::new_leaf()),
    }
}

fn plant(cells: Vec<PlantCell>, energy: i64, rules: ResponseCluster) -> Plant {
    let rooted = !cells.is_empty();
    let pos = if rooted { cells[0].pos } else { Pos { x: 0, y: 0 } };
    Plant {
        cells,
        pos,
        has_root: rooted,
        energy,
        lifetime: 0,
        genome: Genome { data: vec![0; GENOME_SIZE], value_counter: 0 },
        response_clusters: vec![rules; RESPONSE_SIZE],
    }
}

fn seed(pos: Pos, energy: i64) -> Plant {
    let mut seed = plant(vec![], energy, cluster(false, false, false, false));
    seed.pos = pos;
    seed
}

fn trunk(x: i32, y: i32) -> PlantCell {
    PlantCell::new(Pos { x, y }, CellType::Trunk { root_connection: 1_000_000 }, 0)
}

fn leaf(x: i32, y: i32) -> PlantCell {
    PlantCell::new(Pos { x, y }, CellType::Leaf { sun_absorbed: 0 }, 0)
}

fn world(width: i32, height: i32) -> Habitat {
    Habitat::new(Pos { x: width, y: height })
}

#[test]
fn grid_access_wraps_columns_and_counts_rows_from_the_ground() {
    let mut habitat = world(4, 3);
    habitat.set_cell(Pos { x: 1, y: 0 }, CellType::Dead);
    assert_eq!(habitat.cell_map[1][2], CellType::Dead);
    assert_eq!(*habitat.get_cell_at(Pos { x: 1, y: 0 }), CellType::Dead);
    assert_eq!(*habitat.get_cell_at(Pos { x: 5, y: 0 }), CellType::Dead);
    assert_eq!(*habitat.get_cell_at(Pos { x: -3, y: 0 }), CellType::Dead);
    assert_eq!(*habitat.get_cell_at(Pos { x: -7, y: 0 }), CellType::Dead);
    habitat.set_cell(Pos { x: -1, y: 2 }, CellType::Seed);
    assert_eq!(habitat.cell_map[3][0], CellType::Seed);
    assert_eq!(*habitat.get_cell_at(Pos { x: 0, y: 0 }), CellType::Empty);
}

#[test]
fn bounds_checks() {
    let habitat = world(4, 3);
    assert!(habitat.is_in_grid(Pos { x: 0, y: 0 }));
    assert!(habitat.is_in_grid(Pos { x: 3, y: 2 }));
    assert!(!habitat.is_in_grid(Pos { x: 4, y: 2 }));
    assert!(!habitat.is_in_grid(Pos { x: -1, y: 0 }));
    assert!(!habitat.is_in_grid(Pos { x: 0, y: 3 }));
    assert!(habitat.is_in_y_bounds(Pos { x: 99, y: 2 }));
    assert!(!habitat.is_in_y_bounds(Pos { x: 0, y: -1 }));
    assert!(!habitat.is_in_y_bounds(Pos { x: 0, y: 3 }));
}

#[test]
fn sunlight_pass_on_a_mixed_column() {
    let config = Config::standard();
    let mut column = vec![
        CellType::Leaf { sun_absorbed: 0 },
        CellType::Trunk { root_connection: 5 },
        CellType::Empty,
        CellType::Leaf { sun_absorbed: 999 },
        CellType::Dead,
        CellType::Seed,
    ];
    Habitat::column_update(&mut column, &config);
    assert_eq!(
        column,
        vec![
            CellType::Leaf { sun_absorbed: 250_000 },
            CellType::Trunk { root_connection: 5 },
            CellType::Empty,
            CellType::Leaf { sun_absorbed: 168_750 },
            CellType::Dead,
            CellType::Seed,
        ]
    );
    let absorbed = 250_000 + 168_750;
    let blocked = 75_000 + 50_625;
    let exiting = 455_625;
    assert_eq!(absorbed + blocked + exiting, 1_000_000);
}

#[test]
fn sunlight_is_conserved_in_any_column() {
    let config = Config::standard();
    let kinds = [
        CellType::Empty,
        CellType::Leaf { sun_absorbed: 0 },
        CellType::Trunk { root_connection: 1 },
        CellType::Dead,
        CellType::Seed,
    ];
    for code in 0..5usize.pow(6) {
        let mut column = Vec::new();
        let mut rest = code;
        for _ in 0..6 {
            column.push(kinds[rest % 5]);
            rest /= 5;
        }
        let before = column.clone();
        Habitat::column_update(&mut column, &config);
        let mut light = 1_000_000u32;
        let mut absorbed = 0u32;
        let mut blocked = 0u32;
        for (cell, was) in column.iter().zip(before.iter()) {
            match (cell, was) {
                (CellType::Leaf { sun_absorbed }, CellType::Leaf { .. }) => {
                    assert_eq!(*sun_absorbed, light / 4);
                    absorbed += sun_absorbed;
                    light -= sun_absorbed;
                }
                (CellType::Trunk { .. }, CellType::Trunk { .. })
                | (CellType::Dead, CellType::Dead) => {
                    assert_eq!(cell, was);
                    blocked += light / 10;
                    light -= light / 10;
                }
                _ => assert_eq!(cell, was),
            }
        }
        assert_eq!(absorbed + blocked + light, 1_000_000);
    }
}

#[test]
fn empty_column_passes_all_light() {
    let config = Config::standard();
    let mut column = vec![CellType::Empty, CellType::Seed, CellType::Empty, CellType::Leaf {
        sun_absorbed: 0,
    }];
    Habitat::column_update(&mut column, &config);
    assert_eq!(column[3], CellType::Leaf { sun_absorbed: 250_000 });
    let mut bare = vec![CellType::Empty; 8];
    Habitat::column_update(&mut bare, &config);
    assert_eq!(bare, vec![CellType::Empty; 8]);
}

#[test]
fn sun_shines_on_every_column() {
    let mut habitat = world(5, 4);
    for x in 0..5 {
        habitat.set_cell(Pos { x, y: 3 }, CellType::Trunk { root_connection: 1 });
        habitat.set_cell(Pos { x, y: x % 3 }, CellType::Leaf { sun_absorbed: 0 });
    }
    assert!(habitat.is_valid());
    habitat.update_all_columns();
    for x in 0..5 {
        assert_eq!(
            *habitat.get_cell_at(Pos { x, y: x % 3 }),
            CellType::Leaf { sun_absorbed: 225_000 }
        );
    }
}

#[test]
fn rebuilt_grid_lets_leaves_win_and_shows_the_dead_last() {
    let mut habitat = world(6, 4);
    let rules = cluster(false, false, false, false);
    habitat.plants.push(plant(vec![trunk(1, 0), leaf(2, 1), trunk(3, 0)], 0, rules));
    habitat.plants.push(plant(vec![trunk(2, 0), trunk(2, 1), leaf(3, 0)], 0, rules));
    habitat.dead_cells = vec![
        Pos { x: 1, y: 0 },
        Pos { x: 2, y: 1 },
        Pos { x: 5, y: 3 },
        Pos { x: 5, y: 3 },
    ];
    habitat.set_cell(Pos { x: 4, y: 2 }, CellType::Seed);
    assert!(habitat.is_valid());
    habitat.apply_plants();
    let at = |habitat: &Habitat, x: i32, y: i32| *habitat.get_cell_at(Pos { x, y });
    assert_eq!(at(&habitat, 1, 0), CellType::Trunk { root_connection: 1_000_000 });
    assert_eq!(at(&habitat, 2, 0), CellType::Trunk { root_connection: 1_000_000 });
    assert_eq!(at(&habitat, 2, 1), CellType::Leaf { sun_absorbed: 0 });
    assert_eq!(at(&habitat, 3, 0), CellType::Leaf { sun_absorbed: 0 });
    assert_eq!(at(&habitat, 5, 3), CellType::Dead);
    assert_eq!(at(&habitat, 4, 2), CellType::Empty);
    let shown = habitat.cell_map.iter().flatten().filter(|cell| **cell != CellType::Empty).count();
    assert_eq!(shown, 5);
}

#[test]
fn collected_lists_hold_every_living_cell_once() {
    let mut habitat = world(6, 4);
    let rules = cluster(false, false, false, false);
    habitat.plants.push(plant(vec![trunk(1, 0), leaf(2, 1)], 0, rules));
    habitat.plants.push(plant(vec![trunk(2, 0), leaf(3, 0)], 0, rules));
    assert!(habitat.is_valid());
    let (leaves, trunks) = habitat.collect_cells();
    assert_eq!(
        leaves,
        vec![
            (Pos { x: 2, y: 1 }, CellType::Leaf { sun_absorbed: 0 }),
            (Pos { x: 3, y: 0 }, CellType::Leaf { sun_absorbed: 0 }),
        ]
    );
    assert_eq!(
        trunks,
        vec![
            (Pos { x: 1, y: 0 }, CellType::Trunk { root_connection: 1_000_000 }),
            (Pos { x: 2, y: 0 }, CellType::Trunk { root_connection: 1_000_000 }),
        ]
    );
}

#[test]
fn energy_settlement_pays_harvest_minus_upkeep() {
    let mut habitat = world(6, 4);
    let rules = cluster(false, false, false, false);
    let cells = vec![trunk(1, 0), leaf(1, 1), leaf(2, 0), leaf(4, 0)];
    habitat.plants.push(plant(cells, 10_000_000, rules));
    habitat.plants.push(plant(vec![trunk(3, 0)], 100, rules));
    assert!(habitat.is_valid());
    habitat.apply_plants();
    habitat.set_cell(Pos { x: 4, y: 0 }, CellType::Dead);
    habitat.update_all_columns();
    assert_eq!(*habitat.get_cell_at(Pos { x: 1, y: 1 }), CellType::Leaf { sun_absorbed: 250_000 });
    assert_eq!(*habitat.get_cell_at(Pos { x: 2, y: 0 }), CellType::Leaf { sun_absorbed: 250_000 });
    habitat.supply_plant_energy();
    assert_eq!(habitat.plants[0].energy, 10_000_000 + 2 * 1_000_000 - 4 * 500_000);
    assert_eq!(habitat.plants[1].energy, 100 - 500_000);
    assert_eq!(habitat.collected_energy(&habitat.plants[0]), 2_000_000);
}

#[test]
fn shaded_leaf_harvests_less() {
    let mut habitat = world(3, 4);
    let rules = cluster(false, false, false, false);
    habitat.plants.push(plant(vec![trunk(1, 0), leaf(1, 3), leaf(1, 1)], 0, rules));
    assert!(habitat.is_valid());
    habitat.apply_plants();
    habitat.update_all_columns();
    assert_eq!(*habitat.get_cell_at(Pos { x: 1, y: 3 }), CellType::Leaf { sun_absorbed: 250_000 });
    assert_eq!(*habitat.get_cell_at(Pos { x: 1, y: 1 }), CellType::Leaf { sun_absorbed: 187_500 });
    habitat.supply_plant_energy();
    assert_eq!(habitat.plants[0].energy, 1_000_000 + 750_000 - 1_500_000);
}

#[test]
fn dead_plants_leave_remains_and_the_living_keep_their_order() {
    let mut config = Config::standard();
    config.seed_spawn_rate = Ratio { num: 0, den: 1 };
    let mut habitat = Habitat::with_config(Pos { x: 8, y: 4 }, config);
    let rules = cluster(false, false, false, false);
    for x in 0..5 {
        let mut one = plant(vec![trunk(x, 0), leaf(x, 1)], x as i64, rules);
        one.lifetime = if x % 2 == 1 { 47 } else { 46 };
        habitat.plants.push(one);
    }
    habitat.dead_cells.push(Pos { x: 7, y: 3 });
    assert!(habitat.is_valid());
    habitat.remove_dead();
    let energies: Vec<i64> = habitat.plants.iter().map(|plant| plant.energy).collect();
    assert_eq!(energies, vec![0, 2, 4]);
    assert_eq!(
        habitat.dead_cells,
        vec![
            Pos { x: 7, y: 3 },
            Pos { x: 1, y: 0 },
            Pos { x: 1, y: 1 },
            Pos { x: 3, y: 0 },
            Pos { x: 3, y: 1 },
        ]
    );
    assert!(habitat.seeds.is_empty());
}

#[test]
fn every_cell_of_the_dead_seeds_at_rate_one() {
    let mut config = Config::standard();
    config.seed_spawn_rate = Ratio { num: 1, den: 1 };
    config.mutation_rate = Ratio { num: 0, den: 1 };
    let mut habitat = Habitat::with_config(Pos { x: 8, y: 4 }, config);
    let rules = cluster(true, false, true, false);
    let mut old = plant(vec![trunk(2, 0), leaf(2, 1), leaf(3, 0)], 5, rules);
    old.lifetime = 50;
    habitat.plants.push(old);
    habitat.seeds.push(seed(Pos { x: 0, y: 3 }, 1));
    assert!(habitat.is_valid());
    habitat.remove_dead();
    assert!(habitat.plants.is_empty());
    assert_eq!(habitat.seeds.len(), 4);
    let places: Vec<Pos> = habitat.seeds.iter().map(|seed| seed.pos).collect();
    assert_eq!(
        places,
        vec![Pos { x: 0, y: 3 }, Pos { x: 2, y: 0 }, Pos { x: 2, y: 1 }, Pos { x: 3, y: 0 }]
    );
    for released in &habitat.seeds[1..] {
        assert_eq!(released.energy, 125_000_000 + 50_000_000);
        assert_eq!(released.lifetime, 0);
        assert!(released.cells.is_empty());
        assert!(!released.has_root);
        assert_eq!(released.genome.data, vec![0; GENOME_SIZE]);
    }
}

#[test]
fn marks_follow_certain_rates() {
    assert_eq!(Habitat::draw_marks(50, Ratio { num: 7, den: 7 }), vec![true; 50]);
    assert_eq!(Habitat::draw_marks(50, Ratio { num: 0, den: 7 }), vec![false; 50]);
    assert_eq!(Habitat::draw_marks(0, Ratio { num: 1, den: 2 }), Vec::<bool>::new());
    let mixed = Habitat::draw_marks(2000, Ratio { num: 1, den: 2 });
    let hits = mixed.iter().filter(|mark| **mark).count();
    assert!(hits > 800 && hits < 1200, "{} of 2000", hits);
}

#[test]
fn unmarked_positions_keep_their_order() {
    let cells: Vec<Pos> = (0..6).map(|x| Pos { x, y: 0 }).collect();
    let marks = vec![true, false, false, true, false, true];
    assert_eq!(
        Habitat::remove_marked(&cells, &marks),
        vec![Pos { x: 1, y: 0 }, Pos { x: 2, y: 0 }, Pos { x: 4, y: 0 }]
    );
}

#[test]
fn remains_vanish_at_rate_one_and_stay_at_rate_zero() {
    let mut config = Config::standard();
    config.dead_cell_remove_rate = Ratio { num: 1, den: 1 };
    let mut habitat = Habitat::with_config(Pos { x: 8, y: 4 }, config);
    habitat.dead_cells = (0..8).map(|x| Pos { x, y: 1 }).collect();
    assert!(habitat.is_valid());
    habitat.decay_dead_cells();
    assert!(habitat.dead_cells.is_empty());

    config.dead_cell_remove_rate = Ratio { num: 0, den: 1 };
    let mut habitat = Habitat::with_config(Pos { x: 8, y: 4 }, config);
    let remains: Vec<Pos> = (0..8).map(|x| Pos { x, y: 1 }).collect();
    habitat.dead_cells = remains.clone();
    for _ in 0..20 {
        habitat.decay_dead_cells();
    }
    assert_eq!(habitat.dead_cells, remains);
}

#[test]
fn remains_decay_within_exactly_one_tick_at_rate_one() {
    let mut config = Config::standard();
    config.dead_cell_remove_rate = Ratio { num: 1, den: 1 };
    let mut habitat = Habitat::with_config(Pos { x: 8, y: 4 }, config);
    habitat.dead_cells = (0..8).map(|x| Pos { x, y: 1 }).collect();
    assert!(habitat.is_valid());
    habitat.update();
    assert!(habitat.dead_cells.is_empty());
    assert_eq!(habitat.cell_map[3][2], CellType::Dead);
    habitat.update();
    assert_eq!(habitat.cell_map[3][2], CellType::Empty);
}

#[test]
fn remains_never_shrink_at_rate_zero() {
    let mut config = Config::standard();
    config.dead_cell_remove_rate = Ratio { num: 0, den: 1 };
    config.seed_spawn_rate = Ratio { num: 0, den: 1 };
    let mut habitat = Habitat::with_config(Pos { x: 8, y: 4 }, config);
    let rules = cluster(false, false, false, false);
    let mut old = plant(vec![trunk(2, 0), leaf(2, 1)], 5, rules);
    old.lifetime = 45;
    habitat.plants.push(old);
    habitat.dead_cells = vec![Pos { x: 6, y: 0 }];
    for _ in 0..10 {
        habitat.update();
    }
    assert_eq!(
        habitat.dead_cells,
        vec![Pos { x: 6, y: 0 }, Pos { x: 2, y: 0 }, Pos { x: 2, y: 1 }]
    );
}

#[test]
fn ageing_reaches_every_plant() {
    let mut habitat = world(8, 4);
    let rules = cluster(false, false, false, false);
    for x in 0..6 {
        let mut one = plant(vec![trunk(x, 0)], 0, rules);
        one.lifetime = x as usize;
        habitat.plants.push(one);
    }
    assert!(habitat.is_valid());
    habitat.age_plants();
    let ages: Vec<usize> = habitat.plants.iter().map(|plant| plant.lifetime).collect();
    assert_eq!(ages, vec![1, 2, 3, 4, 5, 6]);
}

#[test]
fn rgb_data_is_column_major_from_the_canopy_down() {
    let mut habitat = world(3, 2);
    habitat.set_cell(Pos { x: 0, y: 1 }, CellType::Seed);
    habitat.set_cell(Pos { x: 0, y: 0 }, CellType::Trunk { root_connection: 1 });
    habitat.set_cell(Pos { x: 2, y: 0 }, CellType::Leaf { sun_absorbed: 250_000 });
    assert_eq!(
        habitat.get_rgb_data(),
        vec![
            252, 249, 0, 127, 107, 79, // column 0: canopy, ground
            255, 255, 255, 255, 255, 255, // column 1
            255, 255, 255, 0, 158, 45, // column 2
        ]
    );
}

#[test]
fn minimum_population_is_stored() {
    let mut habitat = world(3, 2);
    habitat.set_minimum_plants(51);
    assert_eq!(habitat.minimum_plants, 51);
}

#[test]
fn remains_are_listed_with_their_owners() {
    let mut habitat = world(8, 4);
    let rules = cluster(false, false, false, false);
    for x in 0..4 {
        let mut one = plant(vec![trunk(x, 0), leaf(x, 1)], x as i64, rules);
        one.lifetime = if x % 2 == 1 { 47 } else { 0 };
        habitat.plants.push(one);
    }
    assert!(habitat.is_valid());
    let (places, owners) = habitat.remains_of_dead();
    assert_eq!(
        places,
        vec![Pos { x: 1, y: 0 }, Pos { x: 1, y: 1 }, Pos { x: 3, y: 0 }, Pos { x: 3, y: 1 }]
    );
    assert_eq!(owners, vec![1, 1, 3, 3]);
}

#[test]
fn seeds_are_released_where_the_marks_fall() {
    let mut config = Config::standard();
    config.mutation_rate = Ratio { num: 0, den: 1 };
    let mut habitat = Habitat::with_config(Pos { x: 8, y: 4 }, config);
    let rules = cluster(false, false, false, false);
    let mut young = plant(vec![trunk(1, 0), leaf(1, 1)], 1, rules);
    young.lifetime = 3;
    young.genome.data[0] = 11;
    let mut old = plant(vec![trunk(5, 0), leaf(5, 1), leaf(6, 1)], 1, rules);
    old.lifetime = 60;
    old.genome.data[0] = 22;
    habitat.plants.push(young);
    habitat.plants.push(old);
    habitat.seeds.push(seed(Pos { x: 0, y: 3 }, 9));
    assert!(habitat.is_valid());
    let places =
        vec![Pos { x: 5, y: 0 }, Pos { x: 5, y: 1 }, Pos { x: 6, y: 1 }, Pos { x: 1, y: 1 }];
    let owners = vec![1, 1, 1, 0];
    habitat.release_seeds(&places, &owners, &vec![true, false, true, true]);
    let released: Vec<(Pos, i64, u16)> =
        habitat.seeds.iter().map(|seed| (seed.pos, seed.energy, seed.genome.data[0])).collect();
    assert_eq!(
        released,
        vec![
            (Pos { x: 0, y: 3 }, 9, 0),
            (Pos { x: 5, y: 0 }, 185_000_000, 22),
            (Pos { x: 6, y: 1 }, 185_000_000, 22),
            (Pos { x: 1, y: 1 }, 128_000_000, 11),
        ]
    );
    assert!(habitat.is_valid());
}
