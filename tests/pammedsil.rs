use kmedoids::{pammedsil, pammedsil_swap, LowerTriangle, LOSS_SCALE};

fn example() -> LowerTriangle {
    LowerTriangle {
        n: 5,
        data: vec![1, 2, 3, 4, 5, 6, 7, 8, 9, 1],
    }
}

fn as_f64(loss: i128) -> f64 {
    loss as f64 / LOSS_SCALE as f64
}

fn assert_array(result: Vec<usize>, expected: Vec<usize>, msg: &'static str) {
    assert!(result.iter().eq(expected.iter()), "{}", msg);
}

#[test]
fn test_pammedsil() {
    let data = example();
    let (loss, assi, meds, n_iter, n_swap) = pammedsil(&data, 3, 10);
    println!("PAMMedSil: {:?} {:?} {:?} {:?} {:?}", loss, n_iter, n_swap, assi, meds);
    assert_eq!(n_swap, 0, "swaps not as expected");
    assert_eq!(n_iter, 1, "iterations not as expected");
    assert_eq!(as_f64(loss), 0.9047619047619048, "loss not as expected");
    assert_array(assi, vec![0, 0, 2, 1, 1], "assignment not as expected");
    assert_array(meds, vec![0, 3, 2], "medoids not as expected");
}

#[test]
fn testpammedsil_simple() {
    let data = example();
    let mut meds = vec![0, 1, 2];
    let (loss, assi, n_iter, n_swap) = pammedsil_swap(&data, &mut meds, 10);
    println!("PAMMedSil: {:?} {:?} {:?} {:?} {:?}", loss, n_iter, n_swap, assi, meds);
    assert_eq!(as_f64(loss), 0.9047619047619048, "loss not as expected");
    assert_eq!(n_swap, 1, "swaps not as expected");
    assert_eq!(n_iter, 2, "iterations not as expected");
    assert_array(assi, vec![0, 0, 2, 1, 1], "assignment not as expected");
    assert_array(meds, vec![0, 3, 2], "medoids not as expected");
}

#[test]
fn testpammedsil_simple2() {
    let data = example();
    let mut meds = vec![0, 1];
    let (loss, assi, n_iter, n_swap) = pammedsil_swap(&data, &mut meds, 10);
    println!("PAMMedSil: {:?} {:?} {:?} {:?} {:?}", loss, n_iter, n_swap, assi, meds);
    assert_eq!(as_f64(loss), 0.8805555555555555, "loss not as expected");
    assert_eq!(n_swap, 1, "swaps not as expected");
    assert_eq!(n_iter, 2, "iterations not as expected");
    assert_array(assi, vec![0, 0, 0, 1, 1], "assignment not as expected");
    assert_array(meds, vec![0, 4], "medoids not as expected");
}
