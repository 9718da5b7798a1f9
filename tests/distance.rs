use digit_distance::distance::{
    compute_ratio, generate_points, pair_extremes, ratio_of_points, squared_distance,
    DistanceRatio, PairExtremes,
};

#[test]
fn squared_distance_exact() {
    assert_eq!(squared_distance(&vec![0, 3], &vec![4, 0]), 25);
    assert_eq!(squared_distance(&vec![10, 20, 30], &vec![13, 16, 30]), 25);
}

#[test]
fn squared_distance_of_extreme_coordinates() {
    let a = vec![u32::MAX; 4];
    let b = vec![0u32; 4];
    let d = (u32::MAX as u128) * (u32::MAX as u128);
    assert_eq!(squared_distance(&a, &b), 4 * d);
}

#[test]
fn squared_distance_is_symmetric() {
    let a = vec![7, 1_000_000, 42];
    let b = vec![99, 3, 4_000_000_000];
    assert_eq!(squared_distance(&a, &b), squared_distance(&b, &a));
}

#[test]
fn squared_distance_to_self_is_zero() {
    let a = vec![5, 6, 7, u32::MAX];
    assert_eq!(squared_distance(&a, &a), 0);
}

#[test]
fn squared_distance_uses_shared_coordinates() {
    assert_eq!(squared_distance(&vec![1, 2, 3], &vec![4]), 9);
    assert_eq!(squared_distance(&vec![], &vec![4]), 0);
}

#[test]
fn extremes_of_three_points() {
    let points = vec![vec![0], vec![3], vec![10]];
    assert_eq!(
        pair_extremes(&points),
        Some(PairExtremes { max_sq: 100, min_sq: 9 })
    );
}

#[test]
fn extremes_are_ordered_and_repeatable() {
    let points = vec![vec![1, 2], vec![9, 9], vec![4, 4], vec![0, 7]];
    let first = pair_extremes(&points).unwrap();
    assert!(first.max_sq >= first.min_sq);
    assert_eq!(pair_extremes(&points), Some(first));
    assert_eq!(first, PairExtremes { max_sq: 113, min_sq: 13 });
}

#[test]
fn extremes_need_two_points() {
    assert_eq!(pair_extremes(&vec![]), None);
    assert_eq!(pair_extremes(&vec![vec![1, 2, 3]]), None);
}

#[test]
fn ratio_with_one_point_has_no_pairs() {
    assert_eq!(ratio_of_points(&vec![vec![3, 4]]), DistanceRatio::NoPairs);
}

#[test]
fn ratio_with_coincident_points() {
    let points = vec![vec![2, 2], vec![5, 6], vec![2, 2]];
    assert_eq!(ratio_of_points(&points), DistanceRatio::Coincident { max_sq: 25 });
    let same = vec![vec![1], vec![1]];
    assert_eq!(ratio_of_points(&same), DistanceRatio::Coincident { max_sq: 0 });
}

#[test]
fn ratio_of_distinct_points() {
    let points = vec![vec![0], vec![3], vec![10]];
    assert_eq!(
        ratio_of_points(&points),
        DistanceRatio::Finite { max_sq: 100, min_sq: 9 }
    );
}

#[test]
fn generated_points_have_requested_shape() {
    let points = generate_points(7, 5);
    assert_eq!(points.len(), 5);
    for p in &points {
        assert_eq!(p.len(), 7);
    }
    assert!(generate_points(0, 0).is_empty());
}

#[test]
fn generated_coordinates_vary() {
    let points = generate_points(1000, 2);
    assert!(points[0] != points[1]);
}

#[test]
fn compute_ratio_with_fewer_than_two_points() {
    assert_eq!(compute_ratio(10, 1), DistanceRatio::NoPairs);
    assert_eq!(compute_ratio(10, 0), DistanceRatio::NoPairs);
}

#[test]
fn compute_ratio_with_many_points() {
    match compute_ratio(10, 50) {
        DistanceRatio::Finite { max_sq, min_sq } => {
            assert!(max_sq >= min_sq);
            assert!(min_sq > 0);
        }
        DistanceRatio::Coincident { .. } => {}
        DistanceRatio::NoPairs => panic!("fifty points have pairs"),
    }
}
