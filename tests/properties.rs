use kmedoids::{
    do_swap, find_best_swap, initial_assignment, pammedsil, pammedsil_swap, ratio_loss,
    swap_step, ArrayAdapter, DistancePair, LowerTriangle, Reco, StepOutcome, LOSS_SCALE, NO_MEDOID,
};

fn example() -> LowerTriangle {
    LowerTriangle {
        n: 5,
        data: vec![1, 2, 3, 4, 5, 6, 7, 8, 9, 1],
    }
}

#[test]
fn lower_triangle_reads_both_halves() {
    let m = example();
    assert_eq!(m.len(), 5);
    assert_eq!(m.get(0, 0), 0);
    assert_eq!(m.get(1, 0), 1);
    assert_eq!(m.get(0, 1), 1);
    assert_eq!(m.get(2, 1), 3);
    assert_eq!(m.get(4, 3), 1);
    assert_eq!(m.get(3, 4), 1);
    assert_eq!(m.get(4, 0), 7);
}

#[test]
fn ratio_of_coincident_object_is_zero() {
    assert_eq!(ratio_loss(0, 5), 0);
    assert_eq!(ratio_loss(3, 0), 0);
    assert_eq!(ratio_loss(0, 0), 0);
}

#[test]
fn ratio_is_exact_fixed_point() {
    assert_eq!(ratio_loss(1, 2), LOSS_SCALE / 2);
    assert_eq!(ratio_loss(2, 3), 768614336404564650);
    assert_eq!(ratio_loss(7, 7), LOSS_SCALE);
}

#[test]
fn exact_losses_of_example_runs() {
    let data = example();
    let (loss, _, _, _, _) = pammedsil(&data, 3, 10);
    assert_eq!(loss, 1043119456549052026);
    let mut meds = vec![0, 1];
    let (loss2, _, _, _) = pammedsil_swap(&data, &mut meds, 10);
    assert_eq!(loss2, 1015211436001029143);
}

#[test]
fn initial_assignment_records_three_nearest() {
    let data = example();
    let (loss, recs) = initial_assignment(&data, &vec![0, 1, 2]);
    assert_eq!(loss, 1931143520216468684);
    assert_eq!(recs.len(), 5);
    assert_eq!((recs[3].near.i, recs[3].near.d), (0, 4));
    assert_eq!(recs[3].seco, Some(DistancePair { i: 1, d: 5 }));
    assert_eq!(recs[3].third, Some(DistancePair { i: 2, d: 6 }));
    assert_eq!((recs[1].near.i, recs[1].near.d), (1, 0));
    assert_eq!(recs[1].seco, Some(DistancePair { i: 0, d: 1 }));
}

#[test]
fn best_swap_general_variant() {
    let data = example();
    let med = vec![0, 1, 2];
    let (_, recs) = initial_assignment(&data, &med);
    assert_eq!(find_best_swap(&data, &med, &recs, 0), (0, NO_MEDOID));
    assert_eq!(find_best_swap(&data, &med, &recs, 3), (1382133279927493934, 1));
    assert_eq!(find_best_swap(&data, &med, &recs, 4), (1258605975862474615, 1));
}

#[test]
fn best_swap_two_medoid_variant() {
    let data = example();
    let med = vec![0, 1];
    let (loss, recs) = initial_assignment(&data, &med);
    assert_eq!(loss, 2699757856621033334);
    assert_eq!(recs[0].third, None);
    assert!(recs[0].seco.is_some());
    assert_eq!(find_best_swap(&data, &med, &recs, 1), (0, NO_MEDOID));
    assert_eq!(find_best_swap(&data, &med, &recs, 2), (650119626208860934, 1));
    assert_eq!(find_best_swap(&data, &med, &recs, 3), (1920163315410689189, 1));
    assert_eq!(find_best_swap(&data, &med, &recs, 4), (2011207513591944168, 1));
}

#[test]
fn do_swap_replaces_slot_and_recomputes() {
    let data = example();
    let mut med = vec![0, 1, 2];
    let (_, mut recs) = initial_assignment(&data, &med);
    let loss = do_swap(&data, &mut med, &mut recs, 1, 3);
    assert_eq!(med, vec![0, 3, 2]);
    assert_eq!(loss, 549010240288974750);
    assert_eq!(recs[4].near.i, 1);
    assert_eq!(recs[4].near.d, 1);
}

#[test]
fn every_swap_lowers_the_loss() {
    let data = example();
    for start in [vec![0, 1, 2], vec![0, 1], vec![1, 2], vec![2, 4, 0]] {
        let mut med = start.clone();
        let (mut loss, mut recs) = initial_assignment(&data, &med);
        let mut steps = 0;
        loop {
            match swap_step(&data, &mut med, &mut recs, loss) {
                StepOutcome::Improved(nl) => {
                    assert!(nl < loss);
                    loss = nl;
                    steps += 1;
                }
                StepOutcome::Unstable(nl) => {
                    assert!(nl >= loss);
                    break;
                }
                StepOutcome::Converged => break,
            }
            assert!(steps < 20);
        }
    }
}

#[test]
fn converged_medoids_are_a_fixed_point() {
    let data = example();
    let mut meds = vec![0, 1, 2];
    let (loss, assi, _, _) = pammedsil_swap(&data, &mut meds, 10);
    let mut again = meds.clone();
    let (loss2, assi2, n_iter2, n_swap2) = pammedsil_swap(&data, &mut again, 10);
    assert_eq!(n_swap2, 0);
    assert_eq!(n_iter2, 1);
    assert_eq!(loss2, loss);
    assert_eq!(again, meds);
    assert_eq!(assi2, assi);
}

#[test]
fn single_cluster_picks_least_distance_sum() {
    let data = example();
    // distance sums per object: 14, 17, 20, 16, 25
    let (loss, assi, meds, n_iter, n_swap) = pammedsil(&data, 1, 10);
    assert_eq!(meds, vec![0]);
    assert_eq!(assi, vec![0; 5]);
    assert_eq!(n_iter, 1);
    assert_eq!(n_swap, 0);
    assert_eq!(loss, 14 * LOSS_SCALE);
    let mut start = vec![4];
    let (loss2, _, n_iter2, n_swap2) = pammedsil_swap(&data, &mut start, 10);
    assert_eq!(start, vec![0]);
    assert_eq!(n_iter2, 1);
    assert_eq!(n_swap2, 1);
    assert_eq!(loss2, 14 * LOSS_SCALE);
}

#[test]
fn duplicates_stop_build_early() {
    let data = LowerTriangle {
        n: 3,
        data: vec![0, 0, 0],
    };
    let (_, assi, meds, n_iter, _) = pammedsil(&data, 2, 10);
    assert_eq!(meds.len(), 1);
    assert_eq!(assi, vec![0, 0, 0]);
    assert_eq!(n_iter, 1);
}

#[test]
fn zero_iterations_cap() {
    let data = example();
    let mut meds = vec![0, 1, 2];
    let (loss, assi, n_iter, n_swap) = pammedsil_swap(&data, &mut meds, 0);
    assert_eq!(n_iter, 0);
    assert_eq!(n_swap, 0);
    assert_eq!(meds, vec![0, 1, 2]);
    assert_eq!(loss, LOSS_SCALE - 1931143520216468684 / 5);
    assert_eq!(assi, vec![0, 1, 2, 0, 0]);
}

#[test]
fn assignments_point_at_returned_medoids() {
    let data = LowerTriangle {
        n: 6,
        data: vec![3, 8, 2, 9, 7, 1, 4, 6, 5, 2, 7, 3, 8, 1, 4],
    };
    for k in 1..=6 {
        let (_, assi, meds, _, _) = pammedsil(&data, k, 20);
        assert_eq!(assi.len(), 6);
        assert!(meds.len() <= k && !meds.is_empty());
        assert!(assi.iter().all(|&a| a < meds.len()));
        assert!(meds.iter().all(|&m| m < 6));
    }
}

#[test]
fn record_insert_keeps_three_nearest_sorted() {
    let r = Reco::fresh(5);
    assert_eq!((r.near.i, r.near.d), (0, 5));
    assert_eq!(r.seco, None);
    assert_eq!(r.third, None);
    assert_eq!(r.loss(), 0);
    let r = r.insert(1, 9, false);
    assert_eq!(r.seco, Some(DistancePair { i: 1, d: 9 }));
    let r = r.insert(2, 3, false);
    assert_eq!((r.near.i, r.near.d), (2, 3));
    assert_eq!(r.seco, Some(DistancePair { i: 0, d: 5 }));
    assert_eq!(r.third, Some(DistancePair { i: 1, d: 9 }));
    let r = r.insert(3, 7, false);
    assert_eq!(r.third, Some(DistancePair { i: 3, d: 7 }));
    let r = r.insert(4, 100, false);
    assert_eq!(r.third, Some(DistancePair { i: 3, d: 7 }));
    let r = r.insert(5, 0, true);
    assert_eq!(r.near.i, 5);
    assert_eq!(r.seco, Some(DistancePair { i: 2, d: 3 }));
    assert_eq!(r.loss(), 0);
}

#[test]
fn build_considers_object_zero_as_candidate() {
    // first medoid is 1; object 0 lowers the nearest distances by 2, object 2 by 1
    let data = LowerTriangle {
        n: 3,
        data: vec![2, 5, 1],
    };
    let (_, _, meds, n_iter, n_swap) = pammedsil(&data, 2, 0);
    assert_eq!(meds, vec![1, 0]);
    assert_eq!((n_iter, n_swap), (0, 0));
}

#[test]
fn build_does_not_stop_while_object_zero_improves() {
    let data = LowerTriangle {
        n: 3,
        data: vec![1, 2, 0],
    };
    let (_, _, meds, _, _) = pammedsil(&data, 2, 0);
    assert_eq!(meds, vec![1, 0]);
}

#[test]
fn medoids_stay_distinct_and_records_sorted() {
    let data = LowerTriangle {
        n: 6,
        data: vec![3, 8, 2, 9, 7, 1, 4, 6, 5, 2, 7, 3, 8, 1, 4],
    };
    for k in 2..=5 {
        let (_, _, meds, _, _) = pammedsil(&data, k, 20);
        for a in 0..meds.len() {
            for b in (a + 1)..meds.len() {
                assert_ne!(meds[a], meds[b]);
            }
        }
        let (_, recs) = initial_assignment(&data, &meds);
        for (o, r) in recs.iter().enumerate() {
            if let Some(s) = r.seco {
                assert!(r.near.d <= s.d);
                if let Some(t) = r.third {
                    assert!(s.d <= t.d);
                }
            }
            for (slot, &m) in meds.iter().enumerate() {
                if m == o {
                    assert_eq!(r.near, DistancePair { i: slot, d: 0 });
                }
            }
        }
    }
}
