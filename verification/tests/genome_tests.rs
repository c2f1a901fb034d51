use treevolution::config::GENOME_SIZE;
use treevolution::genome::Genome;
use treevolution::ratio::Ratio;

#[test]
fn fresh_genome_has_full_size_and_rewound_cursor() {
    let genome = Genome::new();
    assert_eq!(genome.data.len(), GENOME_SIZE);
    assert_eq!(genome.value_counter, 0);
}

#[test]
fn fresh_genomes_differ() {
    let first = Genome::new();
    let second = Genome::new();
    assert_ne!(first.data, second.data);
}

#[test]
fn reads_wrap_around_after_the_last_value() {
    let mut genome = Genome { data: vec![10, 20, 30], value_counter: 0 };
    assert_eq!(genome.parse_values(5), vec![10, 20, 30, 10, 20]);
    assert_eq!(genome.value_counter, 2);
    assert_eq!(genome.parse_value(), 30);
    assert_eq!(genome.value_counter, 0);
    assert_eq!(genome.parse_values(0), Vec::<u16>::new());
    assert_eq!(genome.parse_values(7), vec![10, 20, 30, 10, 20, 30, 10]);
    assert_eq!(genome.value_counter, 1);
}

#[test]
fn reading_a_full_lap_and_more_repeats_the_first_values() {
    let mut lapped = Genome::new();
    let reference = Genome { data: lapped.data.clone(), value_counter: 0 }.parse_values(37);
    let long = lapped.parse_values(GENOME_SIZE + 37);
    assert_eq!(&long[..37], &reference[..]);
    assert_eq!(&long[GENOME_SIZE..], &reference[..]);
    assert_eq!(lapped.value_counter, 37);
}

#[test]
fn single_reads_never_run_out() {
    let mut genome = Genome { data: vec![7, 8], value_counter: 1 };
    let mut seen = Vec::new();
    for _ in 0..5 {
        seen.push(genome.parse_value());
    }
    assert_eq!(seen, vec![8, 7, 8, 7, 8]);
}

#[test]
fn normalized_value_is_the_fraction_of_the_largest_value() {
    let mut genome = Genome { data: vec![0, 65535, 12345], value_counter: 0 };
    assert_eq!(genome.parse_value_normalized(), Ratio { num: 0, den: 65535 });
    assert_eq!(genome.parse_value_normalized(), Ratio { num: 65535, den: 65535 });
    assert_eq!(genome.parse_value_normalized(), Ratio { num: 12345, den: 65535 });
    assert_eq!(genome.value_counter, 0);
}

#[test]
fn bool_is_true_from_one_half_on() {
    let mut genome = Genome { data: vec![0, 32767, 32768, 65535], value_counter: 0 };
    assert!(!genome.parse_bool());
    assert!(!genome.parse_bool());
    assert!(genome.parse_bool());
    assert!(genome.parse_bool());
}

#[test]
fn offspring_of_rate_zero_is_identical() {
    let mut genome = Genome::new();
    genome.parse_values(17);
    let child = genome.create_offspring(Ratio { num: 0, den: 1 });
    assert_eq!(child.data, genome.data);
    assert_eq!(child.value_counter, 0);
}

#[test]
fn offspring_of_rate_one_is_redrawn() {
    let genome = Genome::new();
    let child = genome.create_offspring(Ratio { num: 1, den: 1 });
    assert_eq!(child.data.len(), genome.data.len());
    let same = child.data.iter().zip(genome.data.iter()).filter(|(a, b)| a == b).count();
    assert!(same < 10, "{} values survived a certain redraw", same);
}

#[test]
fn mutation_rate_is_the_share_of_changed_values() {
    let genome = Genome::new();
    let rate = Ratio { num: 1, den: 200 };
    let mut changed = 0usize;
    let offspring = 200;
    for _ in 0..offspring {
        let child = genome.create_offspring(rate);
        assert_eq!(child.data.len(), genome.data.len());
        changed += child.data.iter().zip(genome.data.iter()).filter(|(a, b)| a != b).count();
    }
    let total = offspring * GENOME_SIZE;
    assert!(changed * 1000 > total * 3, "only {} of {} changed", changed, total);
    assert!(changed * 1000 < total * 7, "{} of {} changed", changed, total);
}

#[test]
fn unmutated_value_is_the_parents() {
    for val in [0u16, 1, 32768, 65535] {
        assert_eq!(Genome::mutated(val, false), val);
        assert_eq!(Genome::mutate(val, Ratio { num: 0, den: 5 }), val);
    }
}

#[test]
fn inheritance_takes_the_drawn_value_only_where_redrawn() {
    assert_eq!(Genome::inherit(5, true, 9), 9);
    assert_eq!(Genome::inherit(5, false, 9), 5);
    assert_eq!(Genome::inherit(65535, true, 0), 0);
    assert_eq!(Genome::inherit(0, false, 65535), 0);
}

#[test]
fn redrawn_values_are_fresh_draws() {
    let drawn: Vec<u16> = (0..64).map(|_| Genome::mutated(7, true)).collect();
    assert!(drawn.iter().any(|value| *value != 7));
    let kept: Vec<u16> = (0..64).map(|_| Genome::mutated(7, false)).collect();
    assert!(kept.iter().all(|value| *value == 7));
    let certain: Vec<u16> = (0..64).map(|_| Genome::mutate(7, Ratio { num: 3, den: 3 })).collect();
    assert!(certain.iter().any(|value| *value != 7));
}
