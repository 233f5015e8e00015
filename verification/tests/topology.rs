use boolean_nets::error::GridError;
use boolean_nets::topology::{
    candidates, pick_sources, shape_fits, Neighborhood, Reshuffle, Topology, MAX_CELLS,
    MAX_RADIUS,
};

fn links_of(topology: &Topology) -> Vec<Vec<usize>> {
    (0..topology.cells()).map(|c| topology.tuple(c).clone()).collect()
}

fn reference_links(
    width: usize,
    height: usize,
    arity: usize,
    base: Vec<(i32, i32)>,
    per_cell: bool,
    seed: u64,
) -> (Vec<Vec<usize>>, u64) {
    let mut rng = fastrand::Rng::with_seed(seed);
    let mut diffs = base;
    let mut links = vec![Vec::new(); width * height];
    rng.shuffle(&mut diffs);
    for x in 0..width {
        for y in 0..height {
            if per_cell {
                rng.shuffle(&mut diffs);
            }
            let mut taken = Vec::new();
            for (dx, dy) in diffs.iter() {
                if taken.len() >= arity {
                    break;
                }
                let nx = x as i64 + *dx as i64;
                let ny = y as i64 + *dy as i64;
                if nx >= 0 && nx < width as i64 && ny >= 0 && ny < height as i64 {
                    taken.push((nx + ny * width as i64) as usize);
                }
            }
            links[x + y * width] = taken;
        }
    }
    (links, rng.get_seed())
}

#[test]
fn cross_candidates() {
    let list = candidates(Neighborhood::Cross).unwrap();
    assert_eq!(list, vec![(0, 1), (1, 0), (0, -1), (-1, 0)]);
}

#[test]
fn square_candidates_with_center() {
    let list = candidates(Neighborhood::Square { radius: 1, include_center: true }).unwrap();
    assert_eq!(
        list,
        vec![(-1, -1), (-1, 0), (-1, 1), (0, -1), (0, 0), (0, 1), (1, -1), (1, 0), (1, 1)]
    );
}

#[test]
fn square_candidates_without_center() {
    let list = candidates(Neighborhood::Square { radius: 1, include_center: false }).unwrap();
    assert_eq!(
        list,
        vec![(-1, -1), (-1, 0), (-1, 1), (0, -1), (0, 1), (1, -1), (1, 0), (1, 1)]
    );
    let list = candidates(Neighborhood::Square { radius: 3, include_center: false }).unwrap();
    assert_eq!(list.len(), 48);
    assert!(!list.contains(&(0, 0)));
}

#[test]
fn square_of_radius_zero() {
    let list = candidates(Neighborhood::Square { radius: 0, include_center: true }).unwrap();
    assert_eq!(list, vec![(0, 0)]);
    let list = candidates(Neighborhood::Square { radius: 0, include_center: false }).unwrap();
    assert!(list.is_empty());
}

#[test]
fn square_of_radius_three_has_forty_nine_offsets() {
    let list = candidates(Neighborhood::Square { radius: 3, include_center: true }).unwrap();
    assert_eq!(list.len(), 49);
    assert_eq!(list[0], (-3, -3));
    assert_eq!(list[48], (3, 3));
    assert_eq!(list[24], (0, 0));
}

#[test]
fn radius_above_the_limit_is_refused() {
    let r = candidates(Neighborhood::Square { radius: MAX_RADIUS + 1, include_center: true });
    assert!(matches!(r, Err(GridError::Configuration)));
    assert!(candidates(Neighborhood::Square { radius: MAX_RADIUS, include_center: true }).is_ok());
}

#[test]
fn shapes_that_fit() {
    assert!(shape_fits(1, 1, 1));
    assert!(shape_fits(480, 300, 3));
    assert!(shape_fits(MAX_CELLS, 1, 16));
    assert!(!shape_fits(0, 5, 3));
    assert!(!shape_fits(5, 0, 3));
    assert!(!shape_fits(5, 5, 0));
    assert!(!shape_fits(5, 5, 17));
    assert!(!shape_fits(MAX_CELLS, 2, 3));
    assert!(!shape_fits(usize::MAX, usize::MAX, 3));
}

#[test]
fn sources_are_picked_in_scan_order() {
    let deck = vec![(-1, 0), (1, 0), (0, 1), (0, -1), (0, 0)];
    let picked = pick_sources(&deck, 3, 3, 0, 0, 2).unwrap();
    assert_eq!(picked, vec![1, 3]);
    let picked = pick_sources(&deck, 3, 3, 1, 1, 3).unwrap();
    assert_eq!(picked, vec![3, 5, 7]);
    let picked = pick_sources(&deck, 3, 3, 2, 2, 3).unwrap();
    assert_eq!(picked, vec![7, 5, 8]);
}

#[test]
fn too_few_sources_are_reported() {
    let deck = vec![(-1, 0), (1, 0), (0, 1), (0, -1)];
    assert_eq!(pick_sources(&deck, 3, 3, 0, 0, 3), None);
    assert_eq!(pick_sources(&deck, 3, 3, 0, 0, 2), Some(vec![1, 3]));
    assert_eq!(pick_sources(&Vec::new(), 3, 3, 0, 0, 1), None);
    assert_eq!(pick_sources(&Vec::new(), 3, 3, 0, 0, 0), Some(vec![]));
}

#[test]
fn self_loops_from_radius_zero() {
    let (topology, _) = Topology::generate(
        2,
        2,
        1,
        Neighborhood::Square { radius: 0, include_center: true },
        Reshuffle::PerCell,
        11,
    )
    .unwrap();
    assert_eq!(links_of(&topology), vec![vec![0], vec![1], vec![2], vec![3]]);
}

#[test]
fn every_tuple_has_arity_entries_in_bounds() {
    for seed in 0..20u64 {
        for reshuffle in [Reshuffle::PerCell, Reshuffle::Once] {
            let (topology, _) = Topology::generate(
                7,
                5,
                3,
                Neighborhood::Square { radius: 2, include_center: true },
                reshuffle,
                seed,
            )
            .unwrap();
            assert_eq!(topology.width(), 7);
            assert_eq!(topology.height(), 5);
            assert_eq!(topology.arity(), 3);
            assert_eq!(topology.cells(), 35);
            for c in 0..35 {
                let tuple = topology.tuple(c);
                assert_eq!(tuple.len(), 3);
                for &source in tuple.iter() {
                    assert!(source < 35);
                    let (x, y) = ((c % 7) as i64, (c / 7) as i64);
                    let (sx, sy) = ((source % 7) as i64, (source / 7) as i64);
                    assert!((sx - x).abs() <= 2 && (sy - y).abs() <= 2);
                }
            }
        }
    }
}

#[test]
fn generated_links_follow_the_generator() {
    for seed in [0u64, 3, 1_000_003, u64::MAX] {
        let base = candidates(Neighborhood::Square { radius: 3, include_center: true }).unwrap();
        let (topology, next) = Topology::generate(
            9,
            6,
            3,
            Neighborhood::Square { radius: 3, include_center: true },
            Reshuffle::PerCell,
            seed,
        )
        .unwrap();
        let (expected, expected_next) = reference_links(9, 6, 3, base, true, seed);
        assert_eq!(links_of(&topology), expected);
        assert_eq!(next, expected_next);
    }
}

#[test]
fn one_shuffle_serves_all_cells() {
    let base = candidates(Neighborhood::Square { radius: 2, include_center: false }).unwrap();
    let (topology, next) = Topology::generate(
        6,
        6,
        4,
        Neighborhood::Square { radius: 2, include_center: false },
        Reshuffle::Once,
        21,
    )
    .unwrap();
    let (expected, expected_next) = reference_links(6, 6, 4, base, false, 21);
    assert_eq!(links_of(&topology), expected);
    assert_eq!(next, expected_next);
}

#[test]
fn shuffling_changes_the_order() {
    let (a, _) = Topology::generate(
        12,
        12,
        3,
        Neighborhood::Square { radius: 3, include_center: true },
        Reshuffle::PerCell,
        1,
    )
    .unwrap();
    let (b, _) = Topology::generate(
        12,
        12,
        3,
        Neighborhood::Square { radius: 3, include_center: true },
        Reshuffle::PerCell,
        2,
    )
    .unwrap();
    assert_ne!(links_of(&a), links_of(&b));
    let plain = candidates(Neighborhood::Square { radius: 3, include_center: true }).unwrap();
    let unshuffled: Vec<usize> = pick_sources(&plain, 12, 12, 6, 6, 3).unwrap();
    let mut same = 0;
    for seed in 0..10u64 {
        let (t, _) = Topology::generate(
            12,
            12,
            3,
            Neighborhood::Square { radius: 3, include_center: true },
            Reshuffle::Once,
            seed,
        )
        .unwrap();
        if *t.tuple(6 + 6 * 12) == unshuffled {
            same += 1;
        }
    }
    assert!(same < 10);
}

#[test]
fn same_seed_gives_the_same_links() {
    let make = || {
        Topology::generate(
            10,
            8,
            3,
            Neighborhood::Square { radius: 3, include_center: true },
            Reshuffle::PerCell,
            2024,
        )
        .unwrap()
    };
    let (a, next_a) = make();
    let (b, next_b) = make();
    assert_eq!(links_of(&a), links_of(&b));
    assert_eq!(next_a, next_b);
}

#[test]
fn cross_with_three_sources_underfills_the_corners() {
    let r = Topology::generate(3, 3, 3, Neighborhood::Cross, Reshuffle::PerCell, 1);
    assert!(matches!(r, Err(GridError::TopologyUnderfill)));
    let r = Topology::generate(3, 3, 2, Neighborhood::Cross, Reshuffle::PerCell, 1);
    assert!(r.is_ok());
}

#[test]
fn no_candidates_underfill_every_cell() {
    let r = Topology::generate(
        4,
        4,
        1,
        Neighborhood::Square { radius: 0, include_center: false },
        Reshuffle::Once,
        1,
    );
    assert!(matches!(r, Err(GridError::TopologyUnderfill)));
}

#[test]
fn single_cell_grid_reads_itself() {
    let r = Topology::generate(1, 1, 1, Neighborhood::Cross, Reshuffle::PerCell, 1);
    assert!(matches!(r, Err(GridError::TopologyUnderfill)));
    let (t, _) = Topology::generate(
        1,
        1,
        1,
        Neighborhood::Square { radius: 3, include_center: true },
        Reshuffle::PerCell,
        1,
    )
    .unwrap();
    assert_eq!(links_of(&t), vec![vec![0]]);
}

#[test]
fn bad_shapes_are_configuration_errors() {
    let square = Neighborhood::Square { radius: 1, include_center: true };
    for (w, h, k) in [(0, 3, 1), (3, 0, 1), (3, 3, 0), (3, 3, 17), (MAX_CELLS, 2, 1)] {
        let r = Topology::generate(w, h, k, square, Reshuffle::PerCell, 1);
        assert!(matches!(r, Err(GridError::Configuration)));
    }
    let r = Topology::generate(
        3,
        3,
        1,
        Neighborhood::Square { radius: MAX_RADIUS + 1, include_center: true },
        Reshuffle::PerCell,
        1,
    );
    assert!(matches!(r, Err(GridError::Configuration)));
}

#[test]
fn given_links_are_checked() {
    let ok = Topology::from_links(2, 2, 1, vec![vec![0], vec![1], vec![2], vec![3]]).unwrap();
    assert_eq!(links_of(&ok), vec![vec![0], vec![1], vec![2], vec![3]]);
    let r = Topology::from_links(2, 2, 1, vec![vec![0], vec![1], vec![2], vec![4]]);
    assert!(matches!(r, Err(GridError::Configuration)));
    let r = Topology::from_links(2, 2, 1, vec![vec![0], vec![1], vec![2]]);
    assert!(matches!(r, Err(GridError::Configuration)));
    let r = Topology::from_links(2, 2, 1, vec![vec![0], vec![1], vec![2], vec![3, 3]]);
    assert!(matches!(r, Err(GridError::Configuration)));
    let r = Topology::from_links(2, 2, 2, vec![vec![0], vec![1], vec![2], vec![3]]);
    assert!(matches!(r, Err(GridError::Configuration)));
    let r = Topology::from_links(0, 2, 1, vec![]);
    assert!(matches!(r, Err(GridError::Configuration)));
}

#[test]
fn sources_of_answers_inside_and_outside() {
    let t = Topology::from_links(2, 1, 2, vec![vec![1, 0], vec![0, 0]]).unwrap();
    assert_eq!(t.sources_of(0), Some(vec![1, 0]));
    assert_eq!(t.sources_of(1), Some(vec![0, 0]));
    assert_eq!(t.sources_of(2), None);
    let copy = t.clone();
    assert_eq!(links_of(&copy), links_of(&t));
    assert_eq!(copy.width(), 2);
    assert_eq!(copy.height(), 1);
    assert_eq!(copy.arity(), 2);
}
