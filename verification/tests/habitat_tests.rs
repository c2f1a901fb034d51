use treevolution::cell_types::CellType;
use treevolution::config::Config;
use treevolution::create_habitat;
use treevolution::habitat::Habitat;
use treevolution::position::Pos;
use treevolution::ratio::Ratio;

fn quiet_config() -> Config {
    let mut config = Config::standard();
    config.mutation_rate = Ratio { num: 0, den: 1 };
    config
}

#[test]
fn new_world_is_empty() {
    let habitat = create_habitat((10, 5));
    assert_eq!(habitat.grid_size, Pos { x: 10, y: 5 });
    assert_eq!(habitat.cell_map.len(), 10);
    assert!(habitat.cell_map.iter().all(|column| column.len() == 5));
    assert!(habitat.cell_map.iter().flatten().all(|cell| *cell == CellType::Empty));
    assert_eq!(habitat.get_total_plant_count(), 0);
    assert!(habitat.get_focus_information().is_none());
}

#[test]
fn seed_falls_four_ticks_then_lands_and_germinates() {
    let mut habitat = Habitat::with_config(Pos { x: 10, y: 5 }, quiet_config());
    habitat.spawn_plant();
    assert_eq!(habitat.seeds.len(), 1);
    assert_eq!(habitat.seeds[0].pos.y, 4);
    for tick in 1..=4 {
        habitat.update();
        assert_eq!(habitat.seeds.len(), 1, "tick {}", tick);
        assert_eq!(habitat.seeds[0].pos.y, 4 - tick);
        assert_eq!(habitat.plants.len(), 0);
        assert_eq!(habitat.get_total_plant_count(), 1);
    }
    habitat.update();
    assert_eq!(habitat.seeds.len(), 0);
    assert!(habitat.ground_buffer.iter().all(|column| column.is_empty()));
    assert_eq!(habitat.plants.len(), 1);
    let plant = &habitat.plants[0];
    assert_eq!(plant.cells.len(), 1);
    assert_eq!(plant.cells[0].cell_type, CellType::Trunk { root_connection: 1_000_000 });
    assert_eq!(plant.cells[0].pos.y, 0);
    assert!(plant.has_root);
    assert!(!plant.is_dead());
    assert_eq!(habitat.get_total_plant_count(), 1);
}

#[test]
fn tick_below_the_floor_adds_exactly_one() {
    let mut habitat = create_habitat((10, 5));
    habitat.set_minimum_plants(3);
    habitat.update();
    assert_eq!(habitat.get_total_plant_count(), 1);
    habitat.update();
    assert_eq!(habitat.get_total_plant_count(), 2);
}

#[test]
fn rgb_data_has_three_bytes_per_cell() {
    let mut habitat = create_habitat((4, 3));
    let data = habitat.get_rgb_data();
    assert_eq!(data.len(), 4 * 3 * 3);
    assert!(data.iter().all(|byte| *byte == 255));
    habitat.cell_map[1][2] = CellType::Dead;
    let data = habitat.get_rgb_data();
    let at = 3 * (1 * 3 + 2);
    assert_eq!(&data[at..at + 3], &[130, 130, 130]);
}
