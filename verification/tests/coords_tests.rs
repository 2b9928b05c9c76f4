use pixels_of_life::coords::window_to_grid;

#[test]
fn maps_by_exact_ratio_with_truncation() {
    // ratio 50/100 and 100/200: both halve the position
    assert_eq!(window_to_grid((10, 20), (100, 200), (50, 100)), (5, 10));
    // truncation toward zero
    assert_eq!(window_to_grid((3, 3), (4, 4), (2, 2)), (1, 1));
    assert_eq!(window_to_grid((1, 1), (4, 4), (2, 2)), (0, 0));
    // identity when grid and window agree
    assert_eq!(window_to_grid((7, 11), (64, 64), (64, 64)), (7, 11));
}

#[test]
fn full_window_extent_maps_to_full_grid_extent() {
    assert_eq!(window_to_grid((800, 600), (800, 600), (64, 32)), (64, 32));
    assert_eq!(window_to_grid((1, 1), (1, 1), (4096, 4096)), (4096, 4096));
}

#[test]
fn halving_the_grid_halves_the_mapped_coordinate() {
    let window = (800, 600);
    for &pos in &[(0, 0), (13, 57), (399, 299), (800, 600)] {
        let full = window_to_grid(pos, window, (64, 64));
        let half = window_to_grid(pos, window, (32, 32));
        assert_eq!(half.0, full.0 / 2);
        assert_eq!(half.1, full.1 / 2);
    }
}

#[test]
fn mapping_is_monotone_in_the_position() {
    let window = (100, 100);
    let grid = (7, 7);
    let mut last = window_to_grid((0, 0), window, grid);
    for p in 1..=100 {
        let here = window_to_grid((p, p), window, grid);
        assert!(here.0 >= last.0);
        assert!(here.1 >= last.1);
        last = here;
    }
    assert_eq!(last, (7, 7));
}

#[test]
fn zero_grid_maps_everything_to_zero() {
    assert_eq!(window_to_grid((50, 50), (100, 100), (0, 0)), (0, 0));
}
