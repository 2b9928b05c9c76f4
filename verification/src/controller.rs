use vstd::prelude::*;
use crate::error::CoreError;
use crate::life::{
    all_dead, cell_index, lemma_cell_index_bounds, lemma_cell_index_injective,
    lemma_dead_grid_stays_dead, live_count, next_generation, next_generation_spec,
};
use crate::coords::{map_coord, window_to_grid};
use vstd::arithmetic::div_mod::{lemma_mod_division_less_than_divisor, lemma_multiply_divide_lt};

verus! {

/// The current-generation selector: which of the two generation buffers
/// is authoritative for reading and rendering.
#[derive(Clone, Copy, Debug, PartialEq, Eq, Structural)]
pub enum Slot {
    A,
    B,
}

impl Slot {
    /// The other buffer of the pair.
    pub open spec fn spec_flip(self) -> Slot {
        match self {
            Slot::A => Slot::B,
            Slot::B => Slot::A,
        }
    }

    /// Select the other buffer of the pair.
    pub fn flip(self) -> (r: Slot)
        ensures
            r == self.spec_flip(),
    {
        match self {
            Slot::A => Slot::B,
            Slot::B => Slot::A,
        }
    }
}

/// Flipping the selector twice returns it to its original value: a pair
/// of steps leaves the current-generation index where it started.
pub proof fn lemma_flip_twice(s: Slot)
    ensures
        s.spec_flip().spec_flip() == s,
{
}

/// A grid size is one the store can allocate: both extents are at least
/// one cell and the cell count fits the address space.
pub open spec fn valid_grid_size(w: u32, h: u32) -> bool {
    &&& 1 <= w
    &&& 1 <= h
    &&& (w as int) * (h as int) <= usize::MAX as int
}

/// One generation buffer: a width × height single-channel byte field,
/// row-major, the model of one GPU texture of the pair. A cell is alive
/// iff its byte is nonzero.
pub struct GenBuffer {
    width: u32,
    height: u32,
    cells: Vec<u8>,
}

impl View for GenBuffer {
    type V = Seq<u8>;

    closed spec fn view(&self) -> Seq<u8> {
        self.cells@
    }
}

impl GenBuffer {
    pub closed spec fn spec_width(self) -> u32 {
        self.width
    }

    pub closed spec fn spec_height(self) -> u32 {
        self.height
    }

    /// The buffer is well formed: nonempty extents, and exactly one byte
    /// per cell of the field.
    pub open spec fn wf(self) -> bool {
        &&& 1 <= self.spec_width()
        &&& 1 <= self.spec_height()
        &&& self@.len() == (self.spec_width() as int) * (self.spec_height() as int)
    }

    /// Allocate a buffer of the given extents with every cell dead.
    /// Fails, as a framebuffer allocation does, exactly when an extent is
    /// zero or the cell count overflows the address space.
    pub fn create(w: u32, h: u32) -> (r: Result<GenBuffer, CoreError>)
        ensures
            r is Ok <==> valid_grid_size(w, h),
            r matches Err(e) ==> e == CoreError::FramebufferError,
            r matches Ok(b) ==> b.wf() && b.spec_width() == w && b.spec_height() == h && all_dead(
                b@,
            ),
    {
        if w < 1 || h < 1 {
            return Err(CoreError::FramebufferError);
        }
        proof {
            assert((w as int) * (h as int) <= 0xffff_ffff * 0xffff_ffff) by (nonlinear_arith)
                requires
                    w as int <= 0xffff_ffff,
                    h as int <= 0xffff_ffff,
            ;
        }
        let total: u64 = (w as u64) * (h as u64);
        if total > usize::MAX as u64 {
            return Err(CoreError::FramebufferError);
        }
        let n: usize = total as usize;
        let mut cells: Vec<u8> = Vec::new();
        let mut i: usize = 0;
        while i < n
            invariant
                i <= n,
                cells@.len() == i,
                forall|j: int| 0 <= j < i ==> cells@[j] == 0,
            decreases n - i,
        {
            cells.push(0u8);
            i = i + 1;
        }
        Ok(GenBuffer { width: w, height: h, cells })
    }

    /// The buffer's extents, grid width then grid height.
    pub fn size(&self) -> (r: (u32, u32))
        ensures
            r.0 == self.spec_width(),
            r.1 == self.spec_height(),
    {
        (self.width, self.height)
    }

    /// Read the texel at in-range grid position (x, y).
    pub fn cell(&self, x: u32, y: u32) -> (r: u8)
        requires
            self.wf(),
            x < self.spec_width(),
            y < self.spec_height(),
        ensures
            r == self@[cell_index(x as int, y as int, self.spec_width() as int)],
    {
        proof {
            lemma_cell_index_bounds(
                x as int,
                y as int,
                self.spec_width() as int,
                self.spec_height() as int,
            );
        }
        let _n: usize = self.cells.len();
        self.cells[(y as usize) * (self.width as usize) + (x as usize)]
    }

    /// Replace the one texel at grid position (x, y) with the given
    /// value, leaving every other texel as it was. Rejects an
    /// out-of-range position, as the backend rejects an out-of-range
    /// texture upload, and then changes nothing.
    pub fn write_cell(&mut self, x: u32, y: u32, value: u8) -> (r: Result<(), CoreError>)
        requires
            old(self).wf(),
        ensures
            final(self).wf(),
            final(self).spec_width() == old(self).spec_width(),
            final(self).spec_height() == old(self).spec_height(),
            r is Ok <==> x < old(self).spec_width() && y < old(self).spec_height(),
            r matches Err(e) ==> e == CoreError::TextureError && *final(self) == *old(self),
            r is Ok ==> final(self)@ == old(self)@.update(
                cell_index(x as int, y as int, old(self).spec_width() as int),
                value,
            ),
    {
        if x >= self.width || y >= self.height {
            return Err(CoreError::TextureError);
        }
        proof {
            lemma_cell_index_bounds(
                x as int,
                y as int,
                self.spec_width() as int,
                self.spec_height() as int,
            );
        }
        let _n: usize = self.cells.len();
        self.cells.set((y as usize) * (self.width as usize) + (x as usize), value);
        Ok(())
    }

    /// Count the live cells of the buffer.
    pub fn count_live(&self) -> (n: u64)
        ensures
            n as nat == live_count(self@),
    {
        let len: usize = self.cells.len();
        let mut n: u64 = 0;
        let mut i: usize = 0;
        while i < len
            invariant
                i <= len,
                len == self.cells@.len(),
                n as nat == live_count(self.cells@.take(i as int)),
                n <= i,
            decreases len - i,
        {
            proof {
                assert(self.cells@.take(i as int + 1).drop_last() =~= self.cells@.take(i as int));
                assert(self.cells@.take(i as int + 1).last() == self.cells@[i as int]);
            }
            if self.cells[i] != 0 {
                n = n + 1;
            }
            i = i + 1;
        }
        proof {
            assert(self.cells@.take(len as int) =~= self.cells@);
        }
        n
    }

    /// Overwrite every cell with an independent Bernoulli sample: each
    /// texel becomes 1 with the fixed alive probability and 0 otherwise,
    /// whatever the buffer held before. Nothing beyond the canonical 0/1
    /// range can be said of the outcome, since the draws are random.
    pub fn randomize(&mut self)
        requires
            old(self).wf(),
        ensures
            final(self).wf(),
            final(self).spec_width() == old(self).spec_width(),
            final(self).spec_height() == old(self).spec_height(),
            final(self)@.len() == old(self)@.len(),
            forall|i: int|
                0 <= i < final(self)@.len() ==> final(self)@[i] == 0 || final(self)@[i] == 1,
    {
        let n: usize = self.cells.len();
        let mut i: usize = 0;
        while i < n
            invariant
                i <= n,
                self.width == old(self).width,
                self.height == old(self).height,
                self.cells@.len() == n,
                n == old(self).cells@.len(),
                forall|j: int| 0 <= j < i ==> self.cells@[j] == 0 || self.cells@[j] == 1,
            decreases n - i,
        {
            let r = random_u32();
            let v = bernoulli_cell(r);
            self.cells.set(i, v);
            i = i + 1;
        }
    }
}

/// A uniform draw falls below this bound with probability about 0.06,
/// the baseline alive density of a random reseed.
pub const ALIVE_THRESHOLD: u32 = 257698038;

/// The Bernoulli mapping of one uniform draw: alive (1) exactly when the
/// draw falls below the alive threshold, dead (0) otherwise.
pub open spec fn bernoulli_of(r: u32) -> u8 {
    if r < ALIVE_THRESHOLD {
        1u8
    } else {
        0u8
    }
}

/// Turn one uniform draw into a canonical cell byte by the fixed alive
/// threshold.
pub fn bernoulli_cell(r: u32) -> (v: u8)
    ensures
        v == bernoulli_of(r),
{
    if r < ALIVE_THRESHOLD {
        1
    } else {
        0
    }
}

/// Relies on rand::random: one uniform draw from the thread-local
/// generator. Nothing is promised of the value; callers must hold for
/// every outcome.
#[verifier::external_body]
fn random_u32() -> u32 {
    rand::random()
}

/// No spontaneous life at the controller: the buffer a mutate pass
/// writes from an all-dead current generation is itself all dead, so the
/// step that promotes it presents an all-dead grid again.
pub proof fn lemma_mutate_step_keeps_dead(c: Core)
    requires
        c.wf(),
        all_dead(c.current_cells()),
    ensures
        all_dead(
            next_generation_spec(
                c.current_cells(),
                c.spec_grid_width() as int,
                c.spec_grid_height() as int,
            ),
        ),
{
    c.lemma_wf_cell_counts();
    lemma_dead_grid_stays_dead(
        c.current_cells(),
        c.spec_grid_width() as int,
        c.spec_grid_height() as int,
    );
}

/// Writing one texel and then reading the same position returns exactly
/// the written value, and every other in-range texel reads as before.
pub proof fn lemma_write_cell_read_back(cells: Seq<u8>, w: int, h: int, x: int, y: int, v: u8)
    requires
        1 <= w,
        1 <= h,
        cells.len() == w * h,
        0 <= x < w,
        0 <= y < h,
    ensures
        cells.update(cell_index(x, y, w), v)[cell_index(x, y, w)] == v,
        forall|x2: int, y2: int|
            0 <= x2 < w && 0 <= y2 < h && (x2 != x || y2 != y) ==> cells.update(
                cell_index(x, y, w),
                v,
            )[cell_index(x2, y2, w)] == cells[cell_index(x2, y2, w)],
{
    lemma_cell_index_bounds(x, y, w, h);
    assert forall|x2: int, y2: int|
        0 <= x2 < w && 0 <= y2 < h && (x2 != x || y2 != y) implies cells.update(
        cell_index(x, y, w),
        v,
    )[cell_index(x2, y2, w)] == cells[cell_index(x2, y2, w)] by {
        lemma_cell_index_bounds(x2, y2, w, h);
        if cell_index(x2, y2, w) == cell_index(x, y, w) {
            lemma_cell_index_injective(x2, y2, x, y, w, h);
        }
    }
}

/// The per-axis scale ratio between grid and output surface, kept as
/// exact numerator (grid extent) and denominator (window extent) pairs:
/// the ratio grid / window, per axis, with nothing rounded away.
pub struct ScaleRatio {
    pub grid_w: u32,
    pub grid_h: u32,
    pub window_w: u32,
    pub window_h: u32,
}

impl ScaleRatio {
    /// Map a window-space position into grid space by this ratio,
    /// truncating to whole cell indices.
    pub fn apply(&self, pos: (u32, u32)) -> (r: (u32, u32))
        requires
            1 <= self.window_w,
            1 <= self.window_h,
            pos.0 <= self.window_w,
            pos.1 <= self.window_h,
        ensures
            r.0 == map_coord(pos.0 as int, self.window_w as int, self.grid_w as int),
            r.1 == map_coord(pos.1 as int, self.window_h as int, self.grid_h as int),
    {
        window_to_grid(pos, (self.window_w, self.window_h), (self.grid_w, self.grid_h))
    }
}

/// The frame the presentation pass produces: one byte per output pixel,
/// row-major over the bw × bh output surface, each pixel holding the
/// texel of the gw × gh source field that the scale ratio maps it to
/// (nearest-neighbour sampling, truncated per axis).
pub open spec fn rendered_frame(cells: Seq<u8>, gw: int, gh: int, bw: int, bh: int) -> Seq<u8> {
    Seq::new(
        (bw * bh) as nat,
        |i: int|
            cells[cell_index(
                map_coord(i % bw, bw, gw),
                map_coord(i / bw, bh, gh),
                gw,
            )],
    )
}

/// Core logic of the application: the double-buffered generation store,
/// the current-generation selector, and the output surface extents. The
/// GPU shell mirrors every operation here onto its textures; this model
/// is the single source of truth for what each pass reads and writes.
pub struct Core {
    back_width: u32,
    back_height: u32,
    gen_a: GenBuffer,
    gen_b: GenBuffer,
    current_gen: Slot,
}

impl Core {
    pub closed spec fn spec_back_width(self) -> u32 {
        self.back_width
    }

    pub closed spec fn spec_back_height(self) -> u32 {
        self.back_height
    }

    pub closed spec fn spec_grid_width(self) -> u32 {
        self.gen_a.spec_width()
    }

    pub closed spec fn spec_grid_height(self) -> u32 {
        self.gen_a.spec_height()
    }

    pub closed spec fn spec_slot(self) -> Slot {
        self.current_gen
    }

    /// The cells of the current generation buffer.
    pub closed spec fn current_cells(self) -> Seq<u8> {
        match self.current_gen {
            Slot::A => self.gen_a@,
            Slot::B => self.gen_b@,
        }
    }

    /// The cells of the next generation buffer (stale or freshly written,
    /// depending on whether a mutate has run since the last step).
    pub closed spec fn next_cells(self) -> Seq<u8> {
        match self.current_gen {
            Slot::A => self.gen_b@,
            Slot::B => self.gen_a@,
        }
    }

    /// Both buffers are well formed and share the same extents, so that
    /// a mutate pass may read either while writing the other.
    pub closed spec fn wf(self) -> bool {
        &&& self.gen_a.wf()
        &&& self.gen_b.wf()
        &&& self.gen_b.spec_width() == self.gen_a.spec_width()
        &&& self.gen_b.spec_height() == self.gen_a.spec_height()
    }

    /// Both generation buffers hold exactly one byte per cell.
    pub proof fn lemma_wf_cell_counts(self)
        requires
            self.wf(),
        ensures
            self.current_cells().len() == (self.spec_grid_width() as int) * (
            self.spec_grid_height() as int),
            self.next_cells().len() == (self.spec_grid_width() as int) * (
            self.spec_grid_height() as int),
            1 <= self.spec_grid_width(),
            1 <= self.spec_grid_height(),
    {
    }

    /// Build the controller: allocate the two generation buffers at the
    /// given grid extents, both cleared to all dead, select buffer A as
    /// current, and record the output surface extents. Fails exactly
    /// when the grid size is not allocatable.
    pub fn new(back_buffer_size: (u32, u32), grid_size: (u32, u32)) -> (r: Result<Core, CoreError>)
        ensures
            r is Ok <==> valid_grid_size(grid_size.0, grid_size.1),
            r matches Err(e) ==> e == CoreError::FramebufferError,
            r matches Ok(c) ==> {
                &&& c.wf()
                &&& c.spec_back_width() == back_buffer_size.0
                &&& c.spec_back_height() == back_buffer_size.1
                &&& c.spec_grid_width() == grid_size.0
                &&& c.spec_grid_height() == grid_size.1
                &&& c.spec_slot() == Slot::A
                &&& all_dead(c.current_cells())
                &&& all_dead(c.next_cells())
            },
    {
        let gen_a = match GenBuffer::create(grid_size.0, grid_size.1) {
            Ok(b) => b,
            Err(e) => {
                return Err(e);
            },
        };
        let gen_b = match GenBuffer::create(grid_size.0, grid_size.1) {
            Ok(b) => b,
            Err(e) => {
                return Err(e);
            },
        };
        Ok(
            Core {
                back_width: back_buffer_size.0,
                back_height: back_buffer_size.1,
                gen_a,
                gen_b,
                current_gen: Slot::A,
            },
        )
    }

    /// Replace the recorded output surface extents after the host
    /// reports a framebuffer resize. Touches neither the generation
    /// store nor the current-generation selector; it cannot fail.
    pub fn resize_backbuffer(&mut self, size: (u32, u32))
        requires
            old(self).wf(),
        ensures
            final(self).wf(),
            final(self).spec_back_width() == size.0,
            final(self).spec_back_height() == size.1,
            final(self).spec_grid_width() == old(self).spec_grid_width(),
            final(self).spec_grid_height() == old(self).spec_grid_height(),
            final(self).spec_slot() == old(self).spec_slot(),
            final(self).current_cells() == old(self).current_cells(),
            final(self).next_cells() == old(self).next_cells(),
    {
        self.back_width = size.0;
        self.back_height = size.1;
    }

    /// Recreate the generation store at the new grid extents: both
    /// buffers are reallocated and cleared to all dead, so whatever the
    /// selector's value, reading either buffer afterwards finds no live
    /// cell. Fails exactly when the new size is not allocatable, and
    /// then changes nothing.
    pub fn resize_grid(&mut self, size: (u32, u32)) -> (r: Result<(), CoreError>)
        requires
            old(self).wf(),
        ensures
            final(self).wf(),
            r is Ok <==> valid_grid_size(size.0, size.1),
            r matches Err(e) ==> e == CoreError::FramebufferError && *final(self) == *old(self),
            r is Ok ==> {
                &&& final(self).spec_grid_width() == size.0
                &&& final(self).spec_grid_height() == size.1
                &&& all_dead(final(self).current_cells())
                &&& all_dead(final(self).next_cells())
                &&& final(self).spec_slot() == old(self).spec_slot()
                &&& final(self).spec_back_width() == old(self).spec_back_width()
                &&& final(self).spec_back_height() == old(self).spec_back_height()
            },
    {
        let gen_a = match GenBuffer::create(size.0, size.1) {
            Ok(b) => b,
            Err(e) => {
                return Err(e);
            },
        };
        let gen_b = match GenBuffer::create(size.0, size.1) {
            Ok(b) => b,
            Err(e) => {
                return Err(e);
            },
        };
        self.gen_a = gen_a;
        self.gen_b = gen_b;
        Ok(())
    }

    /// The mutate pass: read the current generation buffer and overwrite
    /// the next generation buffer with its Game-of-Life successor, every
    /// cell at once. The current buffer and the selector are untouched;
    /// promoting the freshly written buffer is the separate step.
    pub fn mutate_gen(&mut self) -> (r: Result<(), CoreError>)
        requires
            old(self).wf(),
        ensures
            final(self).wf(),
            r is Ok,
            final(self).next_cells() == next_generation_spec(
                old(self).current_cells(),
                old(self).spec_grid_width() as int,
                old(self).spec_grid_height() as int,
            ),
            final(self).current_cells() == old(self).current_cells(),
            final(self).spec_slot() == old(self).spec_slot(),
            final(self).spec_grid_width() == old(self).spec_grid_width(),
            final(self).spec_grid_height() == old(self).spec_grid_height(),
            final(self).spec_back_width() == old(self).spec_back_width(),
            final(self).spec_back_height() == old(self).spec_back_height(),
    {
        match self.current_gen {
            Slot::A => {
                let next = next_generation(
                    &self.gen_a.cells,
                    self.gen_a.width,
                    self.gen_a.height,
                );
                self.gen_b.cells = next;
            },
            Slot::B => {
                let next = next_generation(
                    &self.gen_b.cells,
                    self.gen_b.width,
                    self.gen_b.height,
                );
                self.gen_a.cells = next;
            },
        }
        Ok(())
    }

    /// The step: flip the current-generation selector, promoting the
    /// buffer the last mutate wrote to current. No cell changes; called
    /// twice, the selector is back where it started.
    pub fn step_gen(&mut self)
        requires
            old(self).wf(),
        ensures
            final(self).wf(),
            final(self).spec_slot() == old(self).spec_slot().spec_flip(),
            final(self).current_cells() == old(self).next_cells(),
            final(self).next_cells() == old(self).current_cells(),
            final(self).spec_grid_width() == old(self).spec_grid_width(),
            final(self).spec_grid_height() == old(self).spec_grid_height(),
            final(self).spec_back_width() == old(self).spec_back_width(),
            final(self).spec_back_height() == old(self).spec_back_height(),
    {
        self.current_gen = self.current_gen.flip();
    }

    /// The presentation pass: produce the frame shown on the output
    /// surface, one byte per output pixel, each pixel sampling the
    /// current generation buffer at the position the scale ratio maps it
    /// to (nearest neighbour, so cell boundaries stay crisp whatever the
    /// two resolutions are).
    pub fn render_gen(&self) -> (frame: Vec<u8>)
        requires
            self.wf(),
            (self.spec_back_width() as int) * (self.spec_back_height() as int)
                <= usize::MAX as int,
        ensures
            frame@ == rendered_frame(
                self.current_cells(),
                self.spec_grid_width() as int,
                self.spec_grid_height() as int,
                self.spec_back_width() as int,
                self.spec_back_height() as int,
            ),
    {
        let bw = self.back_width;
        let bh = self.back_height;
        let cur: &GenBuffer = match self.current_gen {
            Slot::A => &self.gen_a,
            Slot::B => &self.gen_b,
        };
        let gw = cur.width;
        let gh = cur.height;
        let ghost gcells = self.current_cells();
        let _n: usize = cur.cells.len();
        let mut frame: Vec<u8> = Vec::new();
        let mut py: u32 = 0;
        while py < bh
            invariant
                py <= bh,
                frame@.len() == py * bw,
                self.wf(),
                cur.wf(),
                cur.spec_width() == gw,
                cur.spec_height() == gh,
                cur@ == gcells,
                gw == self.spec_grid_width(),
                gh == self.spec_grid_height(),
                bw == self.spec_back_width(),
                bh == self.spec_back_height(),
                gcells == self.current_cells(),
                forall|i: int|
                    0 <= i < frame@.len() ==> frame@[i] == gcells[cell_index(
                        map_coord(i % (bw as int), bw as int, gw as int),
                        map_coord(i / (bw as int), bh as int, gh as int),
                        gw as int,
                    )],
            decreases bh - py,
        {
            let mut px: u32 = 0;
            proof {
                assert(py * bw + bw <= bh * bw) by (nonlinear_arith)
                    requires
                        py < bh,
                ;
            }
            while px < bw
                invariant
                    px <= bw,
                    py < bh,
                    frame@.len() == py * bw + px,
                    self.wf(),
                    cur.wf(),
                    cur.spec_width() == gw,
                    cur.spec_height() == gh,
                    cur@ == gcells,
                    gw == self.spec_grid_width(),
                    gh == self.spec_grid_height(),
                    bw == self.spec_back_width(),
                    bh == self.spec_back_height(),
                    gcells == self.current_cells(),
                    forall|i: int|
                        0 <= i < frame@.len() ==> frame@[i] == gcells[cell_index(
                            map_coord(i % (bw as int), bw as int, gw as int),
                            map_coord(i / (bw as int), bh as int, gh as int),
                            gw as int,
                        )],
                decreases bw - px,
            {
                let (gx, gy) = window_to_grid((px, py), (bw, bh), (gw, gh));
                proof {
                    assert((px as int) * (gw as int) < (bw as int) * (gw as int))
                        by (nonlinear_arith)
                        requires
                            px < bw,
                            1 <= gw,
                    ;
                    assert((py as int) * (gh as int) < (bh as int) * (gh as int))
                        by (nonlinear_arith)
                        requires
                            py < bh,
                            1 <= gh,
                    ;
                    lemma_multiply_divide_lt((px as int) * (gw as int), bw as int, gw as int);
                    lemma_multiply_divide_lt((py as int) * (gh as int), bh as int, gh as int);
                    lemma_cell_index_bounds(gx as int, gy as int, gw as int, gh as int);
                    lemma_cell_index_bounds(px as int, py as int, bw as int, bh as int);
                }
                let _len_cur: usize = cur.cells.len();
                let v = cur.cells[(gy as usize) * (gw as usize) + (gx as usize)];
                frame.push(v);
                px = px + 1;
            }
            proof {
                assert((py + 1) * bw == py * bw + bw) by (nonlinear_arith);
            }
            py = py + 1;
        }
        proof {
            assert((bh as int) * (bw as int) == (bw as int) * (bh as int)) by (nonlinear_arith);
            assert(frame@ =~= rendered_frame(
                gcells,
                gw as int,
                gh as int,
                bw as int,
                bh as int,
            )) by {
                assert forall|i: int|
                    0 <= i < (bw as int) * (bh as int) implies frame@[i] == rendered_frame(
                    gcells,
                    gw as int,
                    gh as int,
                    bw as int,
                    bh as int,
                )[i] by {
                    lemma_mod_division_less_than_divisor(i, bw as int);
                    lemma_multiply_divide_lt(i, bw as int, bh as int);
                }
            }
        }
        frame
    }

    /// Merge one user edit into the generation that is displayed next:
    /// write the given cell byte at the given grid position of the
    /// current buffer. The position comes from the window-to-grid
    /// conversion; one past the grid's far edge (or anything further) is
    /// rejected, as the backend rejects an out-of-range upload, and then
    /// nothing changes.
    pub fn update_cell(&mut self, cell: u8, pos: (u32, u32)) -> (r: Result<(), CoreError>)
        requires
            old(self).wf(),
        ensures
            final(self).wf(),
            r is Ok <==> pos.0 < old(self).spec_grid_width() && pos.1 < old(
                self,
            ).spec_grid_height(),
            r matches Err(e) ==> e == CoreError::TextureError && *final(self) == *old(self),
            r is Ok ==> final(self).current_cells() == old(self).current_cells().update(
                cell_index(pos.0 as int, pos.1 as int, old(self).spec_grid_width() as int),
                cell,
            ),
            final(self).next_cells() == old(self).next_cells(),
            final(self).spec_slot() == old(self).spec_slot(),
            final(self).spec_grid_width() == old(self).spec_grid_width(),
            final(self).spec_grid_height() == old(self).spec_grid_height(),
            final(self).spec_back_width() == old(self).spec_back_width(),
            final(self).spec_back_height() == old(self).spec_back_height(),
    {
        match self.current_gen {
            Slot::A => self.gen_a.write_cell(pos.0, pos.1, cell),
            Slot::B => self.gen_b.write_cell(pos.0, pos.1, cell),
        }
    }

    /// The window-to-grid scale ratio, per axis, as exact fractions:
    /// grid extents over output surface extents.
    pub fn window_to_grid_scale_ratio(&self) -> (r: ScaleRatio)
        requires
            self.wf(),
        ensures
            r.grid_w == self.spec_grid_width(),
            r.grid_h == self.spec_grid_height(),
            r.window_w == self.spec_back_width(),
            r.window_h == self.spec_back_height(),
    {
        ScaleRatio {
            grid_w: self.gen_a.width,
            grid_h: self.gen_a.height,
            window_w: self.back_width,
            window_h: self.back_height,
        }
    }

    /// Reseed the current generation buffer with independent Bernoulli
    /// samples at the fixed alive density, overwriting it whole; the
    /// next buffer, the selector and the extents stay as they were.
    pub fn random_reset(&mut self) -> (r: Result<(), CoreError>)
        requires
            old(self).wf(),
        ensures
            final(self).wf(),
            r is Ok,
            final(self).current_cells().len() == old(self).current_cells().len(),
            forall|i: int|
                0 <= i < final(self).current_cells().len() ==> final(self).current_cells()[i] == 0
                    || final(self).current_cells()[i] == 1,
            final(self).next_cells() == old(self).next_cells(),
            final(self).spec_slot() == old(self).spec_slot(),
            final(self).spec_grid_width() == old(self).spec_grid_width(),
            final(self).spec_grid_height() == old(self).spec_grid_height(),
            final(self).spec_back_width() == old(self).spec_back_width(),
            final(self).spec_back_height() == old(self).spec_back_height(),
    {
        match self.current_gen {
            Slot::A => self.gen_a.randomize(),
            Slot::B => self.gen_b.randomize(),
        }
        Ok(())
    }

    /// The grid extents, width then height.
    pub fn grid_size(&self) -> (r: (u32, u32))
        requires
            self.wf(),
        ensures
            r.0 == self.spec_grid_width(),
            r.1 == self.spec_grid_height(),
    {
        (self.gen_a.width, self.gen_a.height)
    }

    /// The recorded output surface extents, width then height.
    pub fn backbuffer_size(&self) -> (r: (u32, u32))
        ensures
            r.0 == self.spec_back_width(),
            r.1 == self.spec_back_height(),
    {
        (self.back_width, self.back_height)
    }

    /// Which buffer of the pair is current.
    pub fn current_slot(&self) -> (r: Slot)
        ensures
            r == self.spec_slot(),
    {
        self.current_gen
    }

    /// Read one texel of the current generation buffer.
    pub fn current_cell(&self, x: u32, y: u32) -> (r: u8)
        requires
            self.wf(),
            x < self.spec_grid_width(),
            y < self.spec_grid_height(),
        ensures
            r == self.current_cells()[cell_index(
                x as int,
                y as int,
                self.spec_grid_width() as int,
            )],
    {
        match self.current_gen {
            Slot::A => self.gen_a.cell(x, y),
            Slot::B => self.gen_b.cell(x, y),
        }
    }

    /// Count the live cells of the current generation buffer.
    pub fn count_live_current(&self) -> (n: u64)
        requires
            self.wf(),
        ensures
            n as nat == live_count(self.current_cells()),
    {
        match self.current_gen {
            Slot::A => self.gen_a.count_live(),
            Slot::B => self.gen_b.count_live(),
        }
    }

    /// Count the live cells of the next generation buffer.
    pub fn count_live_next(&self) -> (n: u64)
        requires
            self.wf(),
        ensures
            n as nat == live_count(self.next_cells()),
    {
        match self.current_gen {
            Slot::A => self.gen_b.count_live(),
            Slot::B => self.gen_a.count_live(),
        }
    }
}

} // verus!
