use pixels_of_life::{Core, CoreError, GenBuffer, Slot};

#[test]
fn new_starts_all_dead_on_slot_a() {
    let core = Core::new((800, 600), (64, 64)).unwrap();
    assert_eq!(core.current_slot(), Slot::A);
    assert_eq!(core.grid_size(), (64, 64));
    assert_eq!(core.backbuffer_size(), (800, 600));
    assert_eq!(core.count_live_current(), 0);
    assert_eq!(core.count_live_next(), 0);
}

#[test]
fn new_rejects_zero_grid() {
    assert_eq!(
        Core::new((800, 600), (0, 64)).err().unwrap(),
        CoreError::FramebufferError
    );
    assert_eq!(
        Core::new((800, 600), (64, 0)).err().unwrap(),
        CoreError::FramebufferError
    );
}

#[test]
fn resize_grid_clears_both_buffers() {
    let mut core = Core::new((800, 600), (8, 8)).unwrap();
    core.update_cell(1, (3, 3)).unwrap();
    core.mutate_gen().unwrap();
    core.resize_grid((17, 9)).unwrap();
    assert_eq!(core.grid_size(), (17, 9));
    assert_eq!(core.count_live_current(), 0);
    assert_eq!(core.count_live_next(), 0);
    for y in 0..9 {
        for x in 0..17 {
            assert_eq!(core.current_cell(x, y), 0);
        }
    }
}

#[test]
fn resize_grid_rejects_zero_and_keeps_state() {
    let mut core = Core::new((800, 600), (8, 8)).unwrap();
    core.update_cell(1, (3, 3)).unwrap();
    assert_eq!(
        core.resize_grid((0, 9)).err().unwrap(),
        CoreError::FramebufferError
    );
    assert_eq!(core.grid_size(), (8, 8));
    assert_eq!(core.current_cell(3, 3), 1);
}

#[test]
fn resize_backbuffer_keeps_grid() {
    let mut core = Core::new((800, 600), (8, 8)).unwrap();
    core.update_cell(1, (3, 3)).unwrap();
    core.resize_backbuffer((1024, 768));
    assert_eq!(core.backbuffer_size(), (1024, 768));
    assert_eq!(core.grid_size(), (8, 8));
    assert_eq!(core.current_cell(3, 3), 1);
    assert_eq!(core.current_slot(), Slot::A);
}

#[test]
fn write_then_read_returns_written_value() {
    let mut core = Core::new((800, 600), (16, 16)).unwrap();
    core.update_cell(1, (5, 9)).unwrap();
    assert_eq!(core.current_cell(5, 9), 1);
    core.update_cell(0, (5, 9)).unwrap();
    assert_eq!(core.current_cell(5, 9), 0);
    core.update_cell(255, (15, 0)).unwrap();
    assert_eq!(core.current_cell(15, 0), 255);
    // no other texel changed
    assert_eq!(core.count_live_current(), 1);
}

#[test]
fn update_cell_rejects_out_of_range() {
    let mut core = Core::new((800, 600), (16, 16)).unwrap();
    assert_eq!(
        core.update_cell(1, (16, 0)).err().unwrap(),
        CoreError::TextureError
    );
    assert_eq!(
        core.update_cell(1, (0, 16)).err().unwrap(),
        CoreError::TextureError
    );
    assert_eq!(core.count_live_current(), 0);
}

#[test]
fn step_twice_restores_slot() {
    let mut core = Core::new((800, 600), (8, 8)).unwrap();
    let before = core.current_slot();
    core.step_gen();
    assert_ne!(core.current_slot(), before);
    core.step_gen();
    assert_eq!(core.current_slot(), before);
}

#[test]
fn step_swaps_current_and_next() {
    let mut core = Core::new((800, 600), (8, 8)).unwrap();
    core.update_cell(1, (2, 2)).unwrap();
    assert_eq!(core.count_live_current(), 1);
    assert_eq!(core.count_live_next(), 0);
    core.step_gen();
    assert_eq!(core.count_live_current(), 0);
    assert_eq!(core.count_live_next(), 1);
    core.step_gen();
    assert_eq!(core.count_live_current(), 1);
}

#[test]
fn render_scales_by_nearest_neighbour() {
    let mut core = Core::new((4, 4), (2, 2)).unwrap();
    core.update_cell(1, (0, 0)).unwrap();
    let frame = core.render_gen();
    assert_eq!(frame.len(), 16);
    for py in 0..4u32 {
        for px in 0..4u32 {
            let expected = if px < 2 && py < 2 { 1 } else { 0 };
            assert_eq!(frame[(py * 4 + px) as usize], expected);
        }
    }
}

#[test]
fn render_shrinks_a_larger_grid() {
    // Grid 4x4, output 2x2: each output pixel reads the texel at twice
    // its coordinates.
    let mut core = Core::new((2, 2), (4, 4)).unwrap();
    core.update_cell(1, (0, 0)).unwrap();
    core.update_cell(1, (2, 2)).unwrap();
    let frame = core.render_gen();
    assert_eq!(frame, vec![1, 0, 0, 1]);
}

#[test]
fn scale_ratio_is_exact_fraction_of_extents() {
    let core = Core::new((800, 600), (64, 32)).unwrap();
    let ratio = core.window_to_grid_scale_ratio();
    assert_eq!(ratio.grid_w, 64);
    assert_eq!(ratio.grid_h, 32);
    assert_eq!(ratio.window_w, 800);
    assert_eq!(ratio.window_h, 600);
    assert_eq!(ratio.apply((400, 300)), (32, 16));
}

#[test]
fn gen_buffer_create_write_read_count() {
    let mut buf = GenBuffer::create(3, 2).unwrap();
    assert_eq!(buf.size(), (3, 2));
    for y in 0..2 {
        for x in 0..3 {
            assert_eq!(buf.cell(x, y), 0);
        }
    }
    buf.write_cell(2, 1, 9).unwrap();
    assert_eq!(buf.cell(2, 1), 9);
    assert_eq!(buf.count_live(), 1);
    assert_eq!(
        buf.write_cell(3, 0, 1).err().unwrap(),
        CoreError::TextureError
    );
    assert_eq!(GenBuffer::create(0, 2).err().unwrap(), CoreError::FramebufferError);
}

#[test]
fn error_messages_name_the_failure() {
    assert_eq!(CoreError::FramebufferError.message(), "framebuffer error");
    assert_eq!(CoreError::TessError.message(), "tessellation error");
    assert_eq!(CoreError::ProgramError.message(), "shader program error");
    assert_eq!(CoreError::PipelineError.message(), "pipeline error");
    assert_eq!(CoreError::TextureError.message(), "texture error");
}

#[test]
fn slot_flip_is_an_involution() {
    assert_eq!(Slot::A.flip(), Slot::B);
    assert_eq!(Slot::B.flip(), Slot::A);
    assert_eq!(Slot::A.flip().flip(), Slot::A);
    assert_eq!(Slot::B.flip().flip(), Slot::B);
}
