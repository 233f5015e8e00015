use boolean_nets::partition::{chunk_size, plan, survey, worker_count, Assignment};

#[test]
fn chunk_is_the_quotient_rounded_up() {
    assert_eq!(chunk_size(10, 4), 3);
    assert_eq!(chunk_size(9, 4), 3);
    assert_eq!(chunk_size(8, 4), 2);
    assert_eq!(chunk_size(1, 4), 1);
    assert_eq!(chunk_size(0, 4), 0);
    assert_eq!(chunk_size(144000, 16), 9000);
    assert_eq!(chunk_size(144001, 16), 9001);
    assert_eq!(chunk_size(7, 1), 7);
    assert_eq!(chunk_size(usize::MAX, 1), usize::MAX);
    assert_eq!(chunk_size(usize::MAX, 2), usize::MAX / 2 + 1);
}

#[test]
fn workers_are_capped_and_at_least_one() {
    assert_eq!(worker_count(8, 16), 8);
    assert_eq!(worker_count(32, 16), 16);
    assert_eq!(worker_count(16, 16), 16);
    assert_eq!(worker_count(0, 16), 1);
    assert_eq!(worker_count(4, 0), 1);
    assert_eq!(worker_count(1, 1), 1);
}

#[test]
fn ranges_of_ten_cells_among_four() {
    let r = plan(10, 4, &None);
    assert_eq!(
        r,
        vec![
            Assignment { start: 0, end: 3, core: None },
            Assignment { start: 3, end: 6, core: None },
            Assignment { start: 6, end: 9, core: None },
            Assignment { start: 9, end: 10, core: None },
        ]
    );
}

#[test]
fn ranges_of_nine_cells_among_four_leave_one_empty() {
    let r = plan(9, 4, &None);
    assert_eq!(
        r,
        vec![
            Assignment { start: 0, end: 3, core: None },
            Assignment { start: 3, end: 6, core: None },
            Assignment { start: 6, end: 9, core: None },
            Assignment { start: 9, end: 9, core: None },
        ]
    );
}

#[test]
fn more_workers_than_cells() {
    let r = plan(2, 5, &None);
    let ranges: Vec<(usize, usize)> = r.iter().map(|a| (a.start, a.end)).collect();
    assert_eq!(ranges, vec![(0, 1), (1, 2), (2, 2), (2, 2), (2, 2)]);
    let r = plan(0, 3, &None);
    let ranges: Vec<(usize, usize)> = r.iter().map(|a| (a.start, a.end)).collect();
    assert_eq!(ranges, vec![(0, 0), (0, 0), (0, 0)]);
}

#[test]
fn workers_are_pinned_to_the_reported_cores_in_order() {
    let r = plan(8, 3, &Some(vec![4, 5, 6, 7]));
    let cores: Vec<Option<usize>> = r.iter().map(|a| a.core).collect();
    assert_eq!(cores, vec![Some(4), Some(5), Some(6)]);
    let r = plan(8, 3, &Some(vec![2]));
    let cores: Vec<Option<usize>> = r.iter().map(|a| a.core).collect();
    assert_eq!(cores, vec![Some(2), None, None]);
    let r = plan(8, 2, &Some(vec![]));
    let cores: Vec<Option<usize>> = r.iter().map(|a| a.core).collect();
    assert_eq!(cores, vec![None, None]);
}

#[test]
fn ranges_cover_every_cell_once() {
    for cells in 0..40usize {
        for workers in 1..45usize {
            let r = plan(cells, workers, &None);
            assert_eq!(r.len(), workers);
            let len = chunk_size(cells, workers);
            let mut next = 0;
            for a in r.iter() {
                assert_eq!(a.start, next);
                assert!(a.start <= a.end);
                assert!(a.end - a.start <= len);
                next = a.end;
            }
            assert_eq!(next, cells);
        }
    }
}

#[test]
fn survey_of_this_machine_covers_the_cells() {
    let r = survey(1000, 16);
    assert!(!r.is_empty());
    assert!(r.len() <= 16);
    assert_eq!(r.len(), num_cpus::get().min(16).max(1));
    let mut next = 0;
    for a in r.iter() {
        assert_eq!(a.start, next);
        next = a.end;
    }
    assert_eq!(next, 1000);
    let ids = core_affinity::get_core_ids();
    for (w, a) in r.iter().enumerate() {
        let expected = match &ids {
            Some(list) => list.get(w).map(|c| c.id),
            None => None,
        };
        assert_eq!(a.core, expected);
    }
}

#[test]
fn survey_without_a_cap_uses_one_worker() {
    let r = survey(10, 0);
    assert_eq!(r.len(), 1);
    assert_eq!((r[0].start, r[0].end), (0, 10));
}
