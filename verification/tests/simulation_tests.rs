use treevolution::cell_types::CellType;
use treevolution::config::Config;
use treevolution::habitat::Habitat;
use treevolution::position::Pos;

fn check_world(habitat: &Habitat) {
    assert!(habitat.is_valid());
    let width = habitat.grid_size.x;
    let height = habitat.grid_size.y;
    let inside = |pos: Pos| 0 <= pos.x && pos.x < width && 0 <= pos.y && pos.y < height;
    assert_eq!(habitat.cell_map.len(), width as usize);
    assert!(habitat.cell_map.iter().all(|column| column.len() == height as usize));
    for plant in &habitat.plants {
        assert!(plant.has_root);
        assert!(!plant.is_dead());
        assert!(!plant.cells.is_empty());
        assert!(plant.cells.iter().all(|cell| inside(cell.pos)));
        assert_eq!(plant.cells[0].cell_type, CellType::Trunk { root_connection: 1_000_000 });
        for cell in &plant.cells {
            match cell.cell_type {
                CellType::Trunk { root_connection } => assert!(root_connection <= 1_000_000),
                CellType::Leaf { .. } => {}
                other => panic!("a plant owns {:?}", other),
            }
        }
    }
    for seed in &habitat.seeds {
        assert!(!seed.has_root);
        assert!(seed.cells.is_empty());
        assert!(inside(seed.pos));
        assert_eq!(*habitat.get_cell_at(seed.pos), CellType::Seed);
    }
    for (column, seeds) in habitat.ground_buffer.iter().enumerate() {
        for seed in seeds {
            assert_eq!(seed.pos, Pos { x: column as i32, y: 0 });
            assert!(seed.energy > 0);
            assert!(!seed.has_root);
        }
    }
    assert!(habitat.dead_cells.iter().all(|pos| inside(*pos)));
    let shown_seeds =
        habitat.cell_map.iter().flatten().filter(|cell| **cell == CellType::Seed).count();
    assert!(shown_seeds <= habitat.seeds.len());
    for column in &habitat.cell_map {
        for cell in column {
            if let CellType::Leaf { sun_absorbed } = cell {
                assert!(*sun_absorbed <= 250_000);
            }
        }
    }
    let buffered: usize = habitat.ground_buffer.iter().map(|column| column.len()).sum();
    assert_eq!(
        habitat.get_total_plant_count(),
        habitat.plants.len() + habitat.seeds.len() + buffered
    );
    assert_eq!(habitat.get_rgb_data().len(), (width * height * 3) as usize);
}

#[test]
fn a_world_stays_consistent_over_many_ticks() {
    let mut habitat = Habitat::with_config(Pos { x: 40, y: 16 }, Config::standard());
    habitat.set_minimum_plants(12);
    let mut most_cells = 0;
    let mut ever_rooted = false;
    for tick in 0..400 {
        if tick % 25 == 0 {
            habitat.select_pos(Pos { x: tick % 40, y: 0 });
        }
        habitat.update();
        check_world(&habitat);
        ever_rooted |= !habitat.plants.is_empty();
        for plant in &habitat.plants {
            most_cells = most_cells.max(plant.cells.len());
        }
    }
    assert!(ever_rooted);
    assert!(most_cells >= 1);
    assert!(habitat.get_total_plant_count() >= 1);
}

#[test]
fn a_narrow_world_wraps_without_fault() {
    let mut habitat = Habitat::with_config(Pos { x: 1, y: 3 }, Config::standard());
    habitat.set_minimum_plants(3);
    for _ in 0..200 {
        habitat.update();
        check_world(&habitat);
    }
}

#[test]
fn population_floor_refills_an_empty_world() {
    let mut habitat = Habitat::with_config(Pos { x: 30, y: 6 }, Config::standard());
    habitat.set_minimum_plants(5);
    for _ in 0..5 {
        habitat.update();
    }
    assert_eq!(habitat.get_total_plant_count(), 5);
    assert_eq!(habitat.seeds.len(), 5);
}
