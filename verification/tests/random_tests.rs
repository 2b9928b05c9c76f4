use pixels_of_life::Core;
use pixels_of_life::controller::{bernoulli_cell, ALIVE_THRESHOLD};

#[test]
fn bernoulli_mapping_is_exact_at_the_threshold() {
    assert_eq!(bernoulli_cell(0), 1);
    assert_eq!(bernoulli_cell(ALIVE_THRESHOLD - 1), 1);
    assert_eq!(bernoulli_cell(ALIVE_THRESHOLD), 0);
    assert_eq!(bernoulli_cell(u32::MAX), 0);
}

#[test]
fn random_reset_yields_canonical_cells_only() {
    let mut core = Core::new((800, 600), (32, 32)).unwrap();
    core.random_reset().unwrap();
    for y in 0..32 {
        for x in 0..32 {
            let c = core.current_cell(x, y);
            assert!(c == 0 || c == 1);
        }
    }
}

#[test]
fn random_reset_leaves_next_buffer_alone() {
    let mut core = Core::new((800, 600), (16, 16)).unwrap();
    core.update_cell(1, (3, 3)).unwrap();
    core.mutate_gen().unwrap();
    let next_before = core.count_live_next();
    core.random_reset().unwrap();
    assert_eq!(core.count_live_next(), next_before);
}

#[test]
fn random_reset_hits_the_alive_density_in_expectation() {
    // 64 * 64 = 4096 cells at density about 0.06: about 246 live cells
    // per reseed. Over ten reseeds the total is about 2458 with a
    // standard deviation of about 48, so these bounds leave over ten
    // standard deviations of room on each side.
    let mut core = Core::new((800, 600), (64, 64)).unwrap();
    let mut total: u64 = 0;
    for _ in 0..10 {
        core.random_reset().unwrap();
        total += core.count_live_current();
    }
    assert!(total > 1800, "live total {} unexpectedly low", total);
    assert!(total < 3200, "live total {} unexpectedly high", total);
}
