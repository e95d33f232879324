use sailgraph::{bin_extents, calculate_bin_values, fold_direction, DataPoint, Extents};

#[test]
fn empty_bin_gives_zero_pair() {
    assert_eq!(calculate_bin_values(&vec![]), (0, 0));
}

#[test]
fn single_reading_gives_equal_pair() {
    assert_eq!(calculate_bin_values(&vec![4]), (4, 4));
}

#[test]
fn equal_readings_give_equal_pair() {
    assert_eq!(calculate_bin_values(&vec![7, 7, 7]), (7, 7));
}

#[test]
fn two_tied_values_give_min_and_max() {
    assert_eq!(calculate_bin_values(&vec![5, 3, 5, 3]), (3, 5));
    assert_eq!(calculate_bin_values(&vec![3, 5]), (3, 5));
}

#[test]
fn reduction_ignores_order() {
    let a = calculate_bin_values(&vec![1, 2, 2, 3]);
    let b = calculate_bin_values(&vec![3, 2, 1, 2]);
    let c = calculate_bin_values(&vec![2, 3, 2, 1]);
    assert_eq!(a, (1, 2));
    assert_eq!(a, b);
    assert_eq!(a, c);
}

#[test]
fn ties_go_to_smaller_values() {
    assert_eq!(calculate_bin_values(&vec![3, 1, 2]), (1, 2));
    assert_eq!(calculate_bin_values(&vec![9, 9, 4, 8, 8, 6]), (8, 9));
}

#[test]
fn most_frequent_values_win_over_extremes() {
    assert_eq!(calculate_bin_values(&vec![-50, 10, 10, 10, 12, 12, 400]), (10, 12));
}

#[test]
fn fold_examples() {
    assert_eq!(fold_direction(20_000), 16_000);
    assert_eq!(fold_direction(36_000), 0);
    assert_eq!(fold_direction(0), 0);
    assert_eq!(fold_direction(18_000), 18_000);
    assert_eq!(fold_direction(9_000), 9_000);
    assert_eq!(fold_direction(fold_direction(27_000)), fold_direction(27_000));
}

#[test]
fn bin_takes_half_open_span() {
    let data = vec![
        DataPoint { timestamp: 0, boatspeed: 200, windspeed: 500, winddirection: 1_000 },
        DataPoint { timestamp: 1_000, boatspeed: 200, windspeed: 500, winddirection: 35_000 },
        DataPoint { timestamp: 2_000, boatspeed: 900, windspeed: 500, winddirection: 1_000 },
    ];
    assert_eq!(
        bin_extents(&data, 0, 2_000),
        Extents { boatspeed: (200, 200), windspeed: (500, 500), winddirection: (1_000, 1_000) }
    );
    assert_eq!(
        bin_extents(&data, 1_000, 3_000),
        Extents { boatspeed: (200, 900), windspeed: (500, 500), winddirection: (1_000, 1_000) }
    );
    assert_eq!(
        bin_extents(&data, 5_000, 6_000),
        Extents { boatspeed: (0, 0), windspeed: (0, 0), winddirection: (0, 0) }
    );
}
