use treevolution::cell_types::CellType;
use treevolution::config::Config;
use treevolution::genome::Genome;
use treevolution::position::Pos;
use treevolution::ratio::Ratio;
use treevolution::response::Response;
use treevolution::response_cluster::ResponseCluster;

fn rule(index: usize, gate: i32, num: u32, den: u32, cell: CellType) -> Response {
    Response {
        target_cluster_index: index,
        height_threshold: gate,
        growth_bias_inverse: Ratio { num, den },
        target_cell_type: cell,
    }
}

#[test]
fn response_is_decoded_from_five_reads_in_order() {
    let config = Config::standard();
    let mut genome = Genome { data: vec![31, 65535, 0, 32768, 65535, 99], value_counter: 0 };
    let response = Response::new(&mut genome, &config);
    assert_eq!(response.get_cluster_index(), 1);
    assert_eq!(response.height_threshold, 32);
    assert_eq!(response.growth_bias_inverse, Ratio { num: 32768, den: 65535 });
    assert_eq!(response.get_cell_type(), CellType::Leaf { sun_absorbed: 0 });
    assert_eq!(genome.value_counter, 5);
}

#[test]
fn height_gate_needs_the_chance_check() {
    let config = Config::standard();
    let mut gated = Genome { data: vec![0, 32768, 32767, 1, 0], value_counter: 0 };
    let response = Response::new(&mut gated, &config);
    assert_eq!(response.height_threshold, 16);
    assert_eq!(response.get_cell_type(), CellType::Trunk { root_connection: 1_000_000 });
    let mut open = Genome { data: vec![0, 32768, 32768, 1, 0], value_counter: 0 };
    let response = Response::new(&mut open, &config);
    assert_eq!(response.height_threshold, 0);
}

#[test]
fn swapping_reads_changes_the_rule() {
    let config = Config::standard();
    let mut first = Genome { data: vec![5, 40000, 10, 20000, 0], value_counter: 0 };
    let mut second = Genome { data: vec![5, 10, 40000, 20000, 0], value_counter: 0 };
    let a = Response::new(&mut first, &config);
    let b = Response::new(&mut second, &config);
    assert_eq!(a.height_threshold, 19);
    assert_eq!(b.height_threshold, 0);
}

#[test]
fn cluster_index_is_taken_modulo_the_table_size() {
    assert_eq!(Response::parse_cluster_index(0), 0);
    assert_eq!(Response::parse_cluster_index(29), 29);
    assert_eq!(Response::parse_cluster_index(30), 0);
    assert_eq!(Response::parse_cluster_index(65535), 65535 % 30);
}

#[test]
fn activity_needs_cost_over_bias_over_connection() {
    let config = Config::standard();
    let response = rule(0, 0, 1, 2, CellType::new_leaf());
    let pos = Pos { x: 0, y: 0 };
    assert!(!response.is_active(&pos, 499_999, 1_000_000, &config));
    assert!(response.is_active(&pos, 500_000, 1_000_000, &config));
    assert!(!response.is_active(&pos, 999_999, 500_000, &config));
    assert!(response.is_active(&pos, 1_000_000, 500_000, &config));
    assert!(!response.is_active(&pos, i64::MAX, 0, &config));
}

#[test]
fn infinite_bias_needs_no_more_than_zero_energy() {
    let config = Config::standard();
    let response = rule(0, 0, 0, 65535, CellType::new_leaf());
    let pos = Pos { x: 0, y: 0 };
    assert!(response.is_active(&pos, 0, 1, &config));
    assert!(!response.is_active(&pos, -1, 1_000_000, &config));
}

#[test]
fn activity_respects_the_height_gate() {
    let config = Config::standard();
    let response = rule(0, 3, 0, 1, CellType::new_leaf());
    assert!(!response.is_active(&Pos { x: 0, y: 2 }, 10, 1_000_000, &config));
    assert!(response.is_active(&Pos { x: 0, y: 3 }, 10, 1_000_000, &config));
    assert!(response.is_active(&Pos { x: 0, y: 9 }, 10, 1_000_000, &config));
}

#[test]
fn activity_survives_extreme_operands() {
    let config = Config::standard();
    let response = rule(0, 0, u32::MAX, u32::MAX, CellType::new_leaf());
    let pos = Pos { x: 0, y: 0 };
    assert!(response.is_active(&pos, i64::MAX, u32::MAX, &config));
    assert!(!response.is_active(&pos, i64::MIN, u32::MAX, &config));
}

#[test]
fn cluster_is_decoded_as_up_right_down_left() {
    let config = Config::standard();
    let data: Vec<u16> = (0..20).map(|i| i as u16 * 1000).collect();
    let mut expected_source = Genome { data: data.clone(), value_counter: 0 };
    let up = Response::new(&mut expected_source, &config);
    let right = Response::new(&mut expected_source, &config);
    let down = Response::new(&mut expected_source, &config);
    let left = Response::new(&mut expected_source, &config);
    let mut genome = Genome { data, value_counter: 0 };
    let cluster = ResponseCluster::new(&mut genome, &config);
    assert_eq!(cluster, ResponseCluster { up, right, down, left });
    assert_eq!(genome.value_counter, 0);
    assert_eq!(right.get_cluster_index(), 5000 % 30);
}

#[test]
fn cluster_offers_neighbours_of_active_rules_in_order() {
    let config = Config::standard();
    let on = |index: usize, cell: CellType| rule(index, 0, 0, 1, cell);
    let off = rule(9, 0, 1, 1, CellType::new_leaf());
    let cluster = ResponseCluster {
        up: on(1, CellType::new_leaf()),
        right: off,
        down: on(3, CellType::new_root()),
        left: on(4, CellType::new_leaf()),
    };
    let targets =
        cluster.get_response_ix_with_position(&Pos { x: 5, y: 2 }, 10, 1_000_000, &config);
    assert_eq!(
        targets,
        vec![
            (Pos { x: 5, y: 3 }, 1, CellType::Leaf { sun_absorbed: 0 }),
            (Pos { x: 5, y: 1 }, 3, CellType::Trunk { root_connection: 1_000_000 }),
            (Pos { x: 4, y: 2 }, 4, CellType::Leaf { sun_absorbed: 0 }),
        ]
    );
    let all = cluster.get_response_ix_with_position(
        &Pos { x: 0, y: 0 },
        2_000_000,
        1_000_000,
        &config,
    );
    assert_eq!(all.len(), 4);
    assert_eq!(all[1].0, Pos { x: 1, y: 0 });
    assert_eq!(all[3].0, Pos { x: -1, y: 0 });
}

#[test]
fn rules_are_found_by_direction_name() {
    let cluster = ResponseCluster {
        up: rule(1, 0, 1, 1, CellType::new_leaf()),
        right: rule(2, 0, 1, 1, CellType::new_leaf()),
        down: rule(3, 0, 1, 1, CellType::new_leaf()),
        left: rule(4, 0, 1, 1, CellType::new_leaf()),
    };
    assert_eq!(cluster.get_response("up").get_cluster_index(), 1);
    assert_eq!(cluster.get_response("right").get_cluster_index(), 2);
    assert_eq!(cluster.get_response("down").get_cluster_index(), 3);
    assert_eq!(cluster.get_response("left").get_cluster_index(), 4);
}
