use treevolution::cell_types::CellType;
use treevolution::config::{GENOME_SIZE, RESPONSE_SIZE};
use treevolution::genome::Genome;
use treevolution::habitat::Habitat;
use treevolution::plant::Plant;
use treevolution::plant_cell::PlantCell;
use treevolution::position::Pos;
use treevolution::ratio::Ratio;
use treevolution::response::Response;
use treevolution::response_cluster::ResponseCluster;

fn silent() -> ResponseCluster {
    let rule = Response {
        target_cluster_index: 0,
        height_threshold: 32,
        growth_bias_inverse: Ratio { num: 1, den: 1 },
        target_cell_type: CellType::new_leaf(),
    };
    ResponseCluster { up: rule, right: rule, down: rule, left: rule }
}

fn rooted(cells: Vec<PlantCell>, energy: i64) -> Plant {
    Plant {
        pos: cells[0].pos,
        cells,
        has_root: true,
        energy,
        lifetime: 0,
        genome: Genome { data: vec![0; GENOME_SIZE], value_counter: 0 },
        response_clusters: vec![silent(); RESPONSE_SIZE],
    }
}

fn leaf(x: i32, y: i32) -> PlantCell {
    PlantCell::new(Pos { x, y }, CellType::new_leaf(), 0)
}

fn populated() -> Habitat {
    let mut habitat = Habitat::new(Pos { x: 6, y: 4 });
    habitat.plants.push(rooted(vec![PlantCell::new_root(Pos { x: 1, y: 0 }), leaf(2, 0)], 42));
    habitat.plants.push(rooted(
        vec![PlantCell::new_root(Pos { x: 3, y: 0 }), leaf(2, 0), leaf(3, 1), leaf(3, 1)],
        77_000_000,
    ));
    habitat.apply_plants();
    habitat
}

#[test]
fn nothing_is_reported_without_a_selection() {
    let habitat = populated();
    assert!(habitat.is_valid());
    assert!(habitat.get_focus_information().is_none());
}

#[test]
fn selection_waits_for_the_next_tick() {
    let mut habitat = populated();
    assert!(habitat.is_valid());
    habitat.select_pos(Pos { x: 3, y: 1 });
    assert_eq!(habitat.selected_pos, Some(Pos { x: 3, y: 1 }));
    assert!(habitat.get_focus_information().is_none());
}

#[test]
fn selection_resolves_to_the_last_plant_and_its_first_cell() {
    let mut habitat = populated();
    assert!(habitat.is_valid());
    habitat.select_pos(Pos { x: 2, y: 0 });
    habitat.refresh_selection();
    assert_eq!(habitat.selected_plant_ix, Some(1));
    assert_eq!(habitat.selected_cell_ix, Some(1));
    habitat.select_pos(Pos { x: 3, y: 1 });
    habitat.refresh_selection();
    assert_eq!(habitat.selected_plant_ix, Some(1));
    assert_eq!(habitat.selected_cell_ix, Some(2));
    habitat.select_pos(Pos { x: 7, y: 0 });
    habitat.refresh_selection();
    assert_eq!(habitat.selected_pos, Some(Pos { x: 7, y: 0 }));
    assert_eq!(habitat.selected_plant_ix, Some(0));
    assert_eq!(habitat.selected_cell_ix, Some(0));
}

#[test]
fn selection_of_an_empty_cell_is_cleared() {
    let mut habitat = populated();
    assert!(habitat.is_valid());
    habitat.select_pos(Pos { x: 5, y: 3 });
    habitat.refresh_selection();
    assert_eq!(habitat.selected_pos, None);
    assert_eq!(habitat.selected_plant_ix, None);
    assert_eq!(habitat.selected_cell_ix, None);
    assert!(habitat.get_focus_information().is_none());
}

#[test]
fn focus_reports_energy_and_cell_count() {
    let mut habitat = populated();
    assert!(habitat.is_valid());
    habitat.select_pos(Pos { x: 3, y: 1 });
    habitat.refresh_selection();
    let information = habitat.get_focus_information().expect("a plant is selected");
    assert_eq!(
        information,
        vec![
            ("energy".to_string(), "77000000".to_string()),
            ("cell_count".to_string(), "4".to_string()),
        ]
    );
}

#[test]
fn tick_resolves_and_clears_the_selection() {
    let mut habitat = populated();
    assert!(habitat.is_valid());
    habitat.select_pos(Pos { x: 1, y: 0 });
    habitat.update();
    assert_eq!(habitat.selected_plant_ix, Some(0));
    let information = habitat.get_focus_information().expect("the root is selected");
    assert_eq!(information[1], ("cell_count".to_string(), "2".to_string()));
    habitat.select_pos(Pos { x: 5, y: 3 });
    habitat.update();
    assert_eq!(habitat.selected_pos, None);
    assert!(habitat.get_focus_information().is_none());
}
