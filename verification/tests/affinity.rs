//! Affinity expressions on the processors of a machine.

use affix::affinity::{AffinityExpression, AffinityPolicy, AffinityTerm};
use affix::service::ServiceError;
use affix::topology::{CpuSetEntry, CpuTopology};

fn cpu_set(logical_index: usize, efficiency_class: u8) -> CpuSetEntry {
    cpu_set_with_island(logical_index, efficiency_class, 0)
}

fn cpu_set_with_island(
    logical_index: usize,
    efficiency_class: u8,
    last_level_cache_index: usize,
) -> CpuSetEntry {
    CpuSetEntry {
        id: logical_index as u32,
        group: 0,
        logical_index,
        core_index: logical_index,
        last_level_cache_index,
        numa_node: 0,
        efficiency_class,
        cache: false,
        parked: false,
        allocated_to_other: false,
        realtime: false,
    }
}

fn mask_of(source: &str, entries: &[CpuSetEntry]) -> Option<usize> {
    AffinityExpression::parse(source.to_string())
        .unwrap()
        .mask_from_entries(entries)
        .unwrap()
}

#[test]
fn affinity_expression_uses_zero_based_logical_processor_numbers() {
    let expression = AffinityExpression::parse("0+1+3".to_string()).unwrap();
    let entries = (0..4).map(|index| cpu_set(index, 0)).collect::<Vec<_>>();

    assert_eq!(
        expression.mask_from_entries(&entries).unwrap(),
        Some(0b1011)
    );
}

#[test]
fn affinity_expression_skips_numeric_terms_outside_usable_cpu_sets() {
    let expression = AffinityExpression::parse("0+1+9".to_string()).unwrap();
    let entries = (0..4).map(|index| cpu_set(index, 0)).collect::<Vec<_>>();

    assert_eq!(
        expression.mask_from_entries(&entries).unwrap(),
        Some(0b0011)
    );
}

#[test]
fn affinity_expression_returns_none_for_empty_numeric_result() {
    let expression = AffinityExpression::parse("2".to_string()).unwrap();
    let mut entries = (0..4).map(|index| cpu_set(index, 0)).collect::<Vec<_>>();
    entries[2].allocated_to_other = true;

    assert_eq!(expression.mask_from_entries(&entries).unwrap(), None);

    let unavailable = AffinityExpression::parse("9+10".to_string()).unwrap();
    assert_eq!(unavailable.mask_from_entries(&entries).unwrap(), None);
}

#[test]
fn numeric_terms_resolve_os_logical_indices_and_union_with_portable_terms() {
    let entries = vec![cpu_set(0, 2), cpu_set(2, 0), cpu_set(4, 0)];

    assert_eq!(
        AffinityExpression::parse("P+2".to_string())
            .unwrap()
            .mask_from_entries(&entries)
            .unwrap(),
        Some((1usize << 0) | (1usize << 2))
    );
    assert_eq!(
        AffinityExpression::parse("0+2".to_string())
            .unwrap()
            .mask_from_entries(&entries)
            .unwrap(),
        Some((1usize << 0) | (1usize << 2))
    );
    assert_eq!(
        AffinityExpression::parse("P+0".to_string())
            .unwrap()
            .mask_from_entries(&entries)
            .unwrap(),
        Some(1usize << 0)
    );
}

#[test]
fn numeric_term_zero_is_accepted_as_first_logical_core() {
    let expression = AffinityExpression::parse("0".to_string()).unwrap();
    let entries = vec![cpu_set(0, 0)];
    assert_eq!(expression.mask_from_entries(&entries).unwrap(), Some(1));
}

#[test]
fn heterogeneous_affinity_expression_splits_p_e_and_lpe_tiers() {
    let expression = AffinityExpression::parse("E+LPE".to_string()).unwrap();
    let entries = vec![cpu_set(0, 2), cpu_set(4, 1), cpu_set(8, 0)];

    assert_eq!(
        expression.mask_from_entries(&entries).unwrap(),
        Some((1usize << 4) | (1usize << 8))
    );
}

#[test]
fn two_tier_lpe_falls_back_to_e_tier() {
    let expression = AffinityExpression::parse("LPE".to_string()).unwrap();
    let entries = vec![cpu_set(0, 1), cpu_set(1, 1), cpu_set(4, 0), cpu_set(5, 0)];

    assert_eq!(
        expression.mask_from_entries(&entries).unwrap(),
        Some((1usize << 4) | (1usize << 5))
    );
}

#[test]
fn two_tier_lpe_uses_distinct_low_power_island_when_present() {
    let e = AffinityExpression::parse("E".to_string()).unwrap();
    let lpe = AffinityExpression::parse("LPE".to_string()).unwrap();
    let e_plus_lpe = AffinityExpression::parse("E+LPE".to_string()).unwrap();
    let entries = vec![
        cpu_set_with_island(0, 1, 0),
        cpu_set_with_island(1, 1, 0),
        cpu_set_with_island(4, 0, 1),
        cpu_set_with_island(5, 0, 1),
        cpu_set_with_island(8, 0, 2),
        cpu_set_with_island(9, 0, 2),
    ];

    assert_eq!(
        e.mask_from_entries(&entries).unwrap(),
        Some((1usize << 4) | (1usize << 5))
    );
    assert_eq!(
        lpe.mask_from_entries(&entries).unwrap(),
        Some((1usize << 8) | (1usize << 9))
    );
    assert_eq!(
        e_plus_lpe.mask_from_entries(&entries).unwrap(),
        Some((1usize << 4) | (1usize << 5) | (1usize << 8) | (1usize << 9))
    );
}

#[test]
fn homogeneous_only_sole_e_and_lpe_use_deterministic_lower_tier_fallbacks() {
    let entries = (0..6).map(|index| cpu_set(index, 0)).collect::<Vec<_>>();
    let e = AffinityExpression::parse("E".to_string()).unwrap();
    let e_plus_lpe = AffinityExpression::parse("E+LPE".to_string()).unwrap();
    let lpe = AffinityExpression::parse("LPE".to_string()).unwrap();
    let p = AffinityExpression::parse("P".to_string()).unwrap();
    let p_plus_lpe = AffinityExpression::parse("P+LPE".to_string()).unwrap();
    let p_plus_e_plus_lpe = AffinityExpression::parse("P+E+LPE".to_string()).unwrap();
    let x3d = AffinityExpression::parse("C".to_string()).unwrap();

    assert_eq!(e.mask_from_entries(&entries).unwrap(), Some(0b10_1010));
    assert_eq!(lpe.mask_from_entries(&entries).unwrap(), Some(0b11_0000));
    assert_eq!(
        e_plus_lpe.mask_from_entries(&entries).unwrap(),
        e.mask_from_entries(&entries).unwrap()
    );
    assert_eq!(p.mask_from_entries(&entries).unwrap(), None);
    assert_eq!(p_plus_lpe.mask_from_entries(&entries).unwrap(), None);
    assert_eq!(p_plus_e_plus_lpe.mask_from_entries(&entries).unwrap(), None);
    assert_eq!(x3d.mask_from_entries(&entries).unwrap(), None);
}

#[test]
fn homogeneous_lpe_is_core_count_aware() {
    let lpe = AffinityExpression::parse("LPE".to_string()).unwrap();

    let four = (0..4).map(|index| cpu_set(index, 0)).collect::<Vec<_>>();
    assert_eq!(lpe.mask_from_entries(&four).unwrap(), Some(0b1100));

    let seven = (0..7).map(|index| cpu_set(index, 0)).collect::<Vec<_>>();
    assert_eq!(lpe.mask_from_entries(&seven).unwrap(), Some(0b110_0000));

    let eight = (0..8).map(|index| cpu_set(index, 0)).collect::<Vec<_>>();
    assert_eq!(lpe.mask_from_entries(&eight).unwrap(), Some(0b1111_0000));

    let twelve = (0..12).map(|index| cpu_set(index, 0)).collect::<Vec<_>>();
    assert_eq!(
        lpe.mask_from_entries(&twelve).unwrap(),
        Some((1usize << 5) | (1usize << 7) | (1usize << 9) | (1usize << 11))
    );

    let non_contiguous = [0usize, 1, 2, 3, 4, 5, 7, 8, 9]
        .into_iter()
        .map(|index| cpu_set(index, 0))
        .collect::<Vec<_>>();
    assert_eq!(
        lpe.mask_from_entries(&non_contiguous).unwrap(),
        Some((1usize << 3) | (1usize << 5) | (1usize << 7) | (1usize << 9))
    );
}

#[test]
fn homogeneous_e_uses_every_second_logical_core() {
    let e = AffinityExpression::parse("E".to_string()).unwrap();
    let e_plus_lpe = AffinityExpression::parse("LPE+E".to_string()).unwrap();
    let entries = (0..10).map(|index| cpu_set(index, 0)).collect::<Vec<_>>();

    let expected =
        Some((1usize << 1) | (1usize << 3) | (1usize << 5) | (1usize << 7) | (1usize << 9));
    assert_eq!(e.mask_from_entries(&entries).unwrap(), expected);
    assert_eq!(e_plus_lpe.mask_from_entries(&entries).unwrap(), expected);
}

#[test]
fn c_expression_uses_only_runtime_identified_c_cache_entries() {
    let expression = AffinityExpression::parse("C".to_string()).unwrap();
    let mut entries = (0..8).map(|index| cpu_set(index, 0)).collect::<Vec<_>>();
    for entry in entries.iter_mut().filter(|entry| entry.logical_index >= 4) {
        entry.cache = true;
        entry.last_level_cache_index = 1;
    }

    assert_eq!(
        expression.mask_from_entries(&entries).unwrap(),
        Some(0b1111_0000)
    );
}

#[test]
fn expressions_are_read_without_regard_to_case_and_outer_space() {
    let expression = AffinityExpression::parse("  lp-e + X3d+ 7 ".to_string()).unwrap();
    assert_eq!(
        expression.terms,
        vec![
            AffinityTerm::LowPowerEfficiency,
            AffinityTerm::Cache,
            AffinityTerm::LogicalIndex(7),
        ]
    );
}

#[test]
fn refused_terms_are_named_with_their_expression() {
    assert!(AffinityExpression::parse("P+Q".to_string()).is_err());
    assert!(AffinityExpression::parse("".to_string()).is_err());
    assert!(AffinityExpression::parse("P++E".to_string()).is_err());
    assert!(AffinityExpression::parse("-1".to_string()).is_err());
}

#[test]
fn an_empty_machine_is_an_error_and_so_is_an_unusable_one() {
    let expression = AffinityExpression::parse("P".to_string()).unwrap();
    assert_eq!(
        expression.mask_from_entries(&[]),
        Err("CPU topology is empty".to_string())
    );
    let mut entry = cpu_set(0, 0);
    entry.realtime = true;
    assert_eq!(
        expression.mask_from_entries(&[entry]),
        Err("no usable group-0 CPU-set entries are available".to_string())
    );
    match expression.mask(&CpuTopology { entries: vec![] }) {
        Err(ServiceError::Affinity { expression, message }) => {
            assert_eq!(expression, "P");
            assert_eq!(message, "CPU topology is empty");
        }
        other => panic!("unexpected answer {other:?}"),
    }
}

#[test]
fn an_index_beyond_the_mask_is_refused() {
    let entries = vec![cpu_set(0, 0), cpu_set(usize::BITS as usize, 1)];
    assert_eq!(
        AffinityExpression::parse("P".to_string())
            .unwrap()
            .mask_from_entries(&entries),
        Err(format!(
            "logical processor index {} cannot fit in process affinity mask",
            usize::BITS
        ))
    );
}

#[test]
fn every_tier_together_is_the_whole_machine() {
    let entries = vec![
        cpu_set_with_island(0, 1, 0),
        cpu_set_with_island(1, 1, 0),
        cpu_set_with_island(4, 0, 1),
        cpu_set_with_island(8, 0, 2),
    ];
    assert_eq!(mask_of("P+E+LPE", &entries), Some(0b1_0001_0011));
    assert_eq!(mask_of("LPE+P+E+P", &entries), mask_of("P+E+LPE", &entries));
}

#[test]
fn terms_add_up_on_a_machine_with_several_classes() {
    let entries = vec![cpu_set(0, 2), cpu_set(4, 1), cpu_set(8, 0)];
    let p = mask_of("P", &entries).unwrap();
    let lpe = mask_of("LPE", &entries).unwrap();
    assert_eq!(mask_of("P+LPE", &entries), Some(p | lpe));
    assert_eq!(mask_of("4+P", &entries), Some(p | 0b1_0000));
}

#[test]
fn reserved_processors_are_never_handed_out() {
    let mut entries = (0..4).map(|index| cpu_set(index, 0)).collect::<Vec<_>>();
    entries[1].realtime = true;
    entries[3].group = 1;
    assert_eq!(mask_of("0+1+2+3", &entries), Some(0b0101));
    assert_eq!(mask_of("E", &entries), None);
}

#[test]
fn a_policy_shows_what_it_holds() {
    let mask = AffinityPolicy::Mask(0b110);
    assert_eq!(
        mask.mask(&CpuTopology { entries: vec![] }).unwrap(),
        Some(0b110)
    );
    let expression = AffinityExpression::parse("P+E".to_string()).unwrap();
    assert_eq!(AffinityPolicy::Expression(expression).log_value(), "P+E");
}

#[test]
fn the_order_of_terms_and_processors_means_nothing() {
    let uniform = |count: usize| (0..count).map(|index| cpu_set(index, 0)).collect::<Vec<_>>();
    let islands = (0..8)
        .map(|index| cpu_set_with_island(index, u8::from(index < 2), index / 3))
        .collect::<Vec<_>>();
    let tiers = (0..9).map(|index| cpu_set(index, (index / 3) as u8)).collect::<Vec<_>>();
    for machine in [uniform(1), uniform(6), uniform(8), uniform(12), islands, tiers] {
        let mut backwards = machine.clone();
        backwards.reverse();
        let mut turned = machine.clone();
        turned.rotate_left(machine.len() / 2);
        for (source, reordered) in [
            ("E", "E"),
            ("LPE", "LPE"),
            ("E+LPE", "LPE+E"),
            ("P+E+LPE", "LPE+P+E"),
            ("0+C+P", "P+0+C"),
        ] {
            let expected = mask_of(source, &machine);
            assert_eq!(mask_of(reordered, &backwards), expected);
            assert_eq!(mask_of(reordered, &turned), expected);
        }
    }
}
