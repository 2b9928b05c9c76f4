use pixels_of_life::Core;

fn new_core(grid_w: u32, grid_h: u32) -> Core {
    Core::new((200, 200), (grid_w, grid_h)).unwrap()
}

fn set_alive(core: &mut Core, x: u32, y: u32) {
    core.update_cell(1, (x, y)).unwrap();
}

fn advance(core: &mut Core) {
    core.mutate_gen().unwrap();
    core.step_gen();
}

fn alive_cells(core: &Core) -> Vec<(u32, u32)> {
    let (w, h) = core.grid_size();
    let mut out = Vec::new();
    for y in 0..h {
        for x in 0..w {
            if core.current_cell(x, y) != 0 {
                out.push((x, y));
            }
        }
    }
    out
}

#[test]
fn dead_grid_stays_dead() {
    let mut core = new_core(5, 5);
    assert_eq!(core.count_live_current(), 0);
    advance(&mut core);
    assert_eq!(core.count_live_current(), 0);
    advance(&mut core);
    assert_eq!(core.count_live_current(), 0);
}

#[test]
fn lone_interior_cell_dies() {
    let mut core = new_core(5, 5);
    set_alive(&mut core, 2, 2);
    assert_eq!(core.count_live_current(), 1);
    advance(&mut core);
    assert_eq!(core.count_live_current(), 0);
}

#[test]
fn lone_edge_cell_dies() {
    let mut core = new_core(5, 5);
    set_alive(&mut core, 0, 2);
    advance(&mut core);
    assert_eq!(core.count_live_current(), 0);
}

#[test]
fn lone_corner_cell_is_still_life() {
    // With edge-clamped sampling a corner cell reads itself through three
    // off-grid offsets, so an isolated corner cell counts three live
    // neighbours and survives unchanged.
    let mut core = new_core(4, 4);
    set_alive(&mut core, 0, 0);
    advance(&mut core);
    assert_eq!(alive_cells(&core), vec![(0, 0)]);
    advance(&mut core);
    assert_eq!(alive_cells(&core), vec![(0, 0)]);
}

#[test]
fn block_is_stable() {
    let mut core = new_core(5, 5);
    for &(x, y) in &[(1, 1), (2, 1), (1, 2), (2, 2)] {
        set_alive(&mut core, x, y);
    }
    for _ in 0..4 {
        advance(&mut core);
        assert_eq!(alive_cells(&core), vec![(1, 1), (2, 1), (1, 2), (2, 2)]);
    }
}

#[test]
fn blinker_oscillates_with_period_two() {
    let mut core = new_core(5, 5);
    for &(x, y) in &[(1, 2), (2, 2), (3, 2)] {
        set_alive(&mut core, x, y);
    }
    advance(&mut core);
    assert_eq!(alive_cells(&core), vec![(2, 1), (2, 2), (2, 3)]);
    advance(&mut core);
    assert_eq!(alive_cells(&core), vec![(1, 2), (2, 2), (3, 2)]);
    advance(&mut core);
    assert_eq!(alive_cells(&core), vec![(2, 1), (2, 2), (2, 3)]);
}

#[test]
fn mutate_writes_next_and_keeps_current() {
    // A mutate alone must not change what is displayed; only the step
    // promotes the freshly written buffer.
    let mut core = new_core(5, 5);
    set_alive(&mut core, 2, 2);
    core.mutate_gen().unwrap();
    assert_eq!(core.count_live_current(), 1);
    assert_eq!(core.count_live_next(), 0);
    core.step_gen();
    assert_eq!(core.count_live_current(), 0);
    assert_eq!(core.count_live_next(), 1);
}

#[test]
fn nonzero_bytes_count_as_alive() {
    // Any nonzero byte is a live cell; the next generation holds the
    // canonical 1. A cell with exactly two live neighbours written as
    // arbitrary nonzero bytes survives as 1.
    let mut core = new_core(5, 5);
    core.update_cell(7, (1, 2)).unwrap();
    core.update_cell(200, (2, 2)).unwrap();
    core.update_cell(33, (3, 2)).unwrap();
    advance(&mut core);
    assert_eq!(core.current_cell(2, 2), 1);
    assert_eq!(alive_cells(&core), vec![(2, 1), (2, 2), (2, 3)]);
}
