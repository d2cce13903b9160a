//! Frame buffer for the SH1106 128x64 display, which shows the 64x32 CHIP-8
//! screen at double resolution, and the I2C command stream that brings the
//! panel up to date.
use vstd::prelude::*;

verus! {

/// Rows per display page: each byte of the frame buffer holds one column of
/// eight vertically stacked pixels.
pub const PAGE_SIZE: usize = 8;

/// Width of the CHIP-8 screen in pixels.
pub const SCREEN_WIDTH: usize = 64;

/// Height of the CHIP-8 screen in pixels.
pub const SCREEN_HEIGHT: usize = 32;

/// Width of the panel in pixels.
pub const DISPLAY_WIDTH: usize = 128;

/// Height of the panel in pixels.
pub const DISPLAY_HEIGHT: usize = 64;

/// Number of bytes in the frame buffer.
pub const DISPLAY_SIZE: usize = 1024;

/// Seven-bit I2C address of the display controller.
pub const DISPLAY_ADDRESS: u8 = 0x3C;

/// Index of the frame-buffer byte that holds panel pixel `(x, y)`.
pub open spec fn byte_index(x: int, y: int) -> int {
    (y / 8) * 128 + x
}

/// Whether bit `bit` of `b` is set.
pub open spec fn bit_set(b: u8, bit: int) -> bool {
    (b >> (bit as u8)) & 1u8 == 1u8
}

/// The single-bit mask for bit `bit`.
pub open spec fn bit_mask(bit: int) -> u8 {
    1u8 << (bit as u8)
}

/// Whether panel pixel `(x, y)` is lit in the frame buffer `pixels`.
pub open spec fn pixel_lit(pixels: Seq<u8>, x: int, y: int) -> bool {
    bit_set(pixels[byte_index(x, y)], y % 8)
}

/// Column of the panel pixel that buffer position `(x, y)` reaches: a
/// column past the right edge continues on the next page.
pub open spec fn panel_x(x: int) -> int {
    x % 128
}

/// Row of the panel pixel that buffer position `(x, y)` reaches.
pub open spec fn panel_y(x: int, y: int) -> int {
    y + 8 * (x / 128)
}

/// Column of the CHIP-8 pixel that `draw(x, y)` reaches: a column past the
/// right edge continues four rows further down.
pub open spec fn screen_x(x: int) -> int {
    x % 64
}

/// Row of the CHIP-8 pixel that `draw(x, y)` reaches.
pub open spec fn screen_y(x: int, y: int) -> int {
    y + 4 * (x / 64)
}

/// Whether `(x, y)` is a pixel of the panel.
pub open spec fn on_panel(x: int, y: int) -> bool {
    0 <= x < 128 && 0 <= y < 64
}

/// Toggling bit `i` of a byte flips bit `i` and keeps every other bit.
pub proof fn lemma_xor_bit(p: u8, i: u8, j: u8)
    by (bit_vector)
    requires
        i < 8,
        j < 8,
    ensures
        (((p ^ (1u8 << i)) >> j) & 1u8 == 1u8) == (if i == j {
            !((p >> j) & 1u8 == 1u8)
        } else {
            (p >> j) & 1u8 == 1u8
        }),
{
}

/// Masking with the single-bit mask of bit `i` tests bit `i`.
pub proof fn lemma_mask_tests_bit(p: u8, i: u8)
    by (bit_vector)
    requires
        i < 8,
    ensures
        ((p & (1u8 << i)) != 0u8) == ((p >> i) & 1u8 == 1u8),
{
}

/// Distinct panel pixels that share a byte sit at distinct bits of it.
pub proof fn lemma_byte_index_separates(x: int, y: int, px: int, py: int)
    requires
        on_panel(x, y),
        on_panel(px, py),
        byte_index(x, y) == byte_index(px, py),
    ensures
        x == px,
        y / 8 == py / 8,
        y != py ==> y % 8 != py % 8,
        0 <= byte_index(x, y) < 1024,
{
}

/// Toggling the bit of pixel `(x, y)` in its byte flips that pixel and no
/// other pixel of the panel.
pub proof fn lemma_toggle_pixel(old_pixels: Seq<u8>, new_pixels: Seq<u8>, x: int, y: int)
    requires
        old_pixels.len() == 1024,
        on_panel(x, y),
        new_pixels == old_pixels.update(
            byte_index(x, y),
            old_pixels[byte_index(x, y)] ^ bit_mask(y as int % 8),
        ),
    ensures
        forall|px: int, py: int|
            on_panel(px, py) ==> #[trigger] pixel_lit(new_pixels, px, py) == (if px == x && py == y {
                !pixel_lit(old_pixels, x, y)
            } else {
                pixel_lit(old_pixels, px, py)
            }),
{
    assert forall|px: int, py: int| on_panel(px, py) implies #[trigger] pixel_lit(new_pixels, px, py) == (
    if px == x && py == y {
        !pixel_lit(old_pixels, x, y)
    } else {
        pixel_lit(old_pixels, px, py)
    }) by {
        let b = byte_index(x, y);
        let pb = byte_index(px, py);
        assert(0 <= pb < 1024);
        if pb == b {
            lemma_byte_index_separates(x, y, px, py);
            lemma_xor_bit(old_pixels[b], (y % 8) as u8, (py % 8) as u8);
        }
    }
}

/// Whether the four panel pixels of every CHIP-8 pixel agree.
pub open spec fn blocks_uniform(pixels: Seq<u8>) -> bool {
    forall|x: int, y: int|
        0 <= x < 64 && 0 <= y < 32 ==> {
            &&& #[trigger] pixel_lit(pixels, 2 * x, 2 * y) == pixel_lit(pixels, 2 * x + 1, 2 * y)
            &&& pixel_lit(pixels, 2 * x, 2 * y) == pixel_lit(pixels, 2 * x, 2 * y + 1)
            &&& pixel_lit(pixels, 2 * x, 2 * y) == pixel_lit(pixels, 2 * x + 1, 2 * y + 1)
        }
}

/// Whether panel pixel `(px, py)` is one of the four that show CHIP-8 pixel `(x, y)`.
pub open spec fn in_block(x: int, y: int, px: int, py: int) -> bool {
    (px == 2 * x || px == 2 * x + 1) && (py == 2 * y || py == 2 * y + 1)
}

/// A zero byte has no bit set.
pub proof fn lemma_zero_byte_dark(j: u8)
    by (bit_vector)
    requires
        j < 8,
    ensures
        !((0u8 >> j) & 1u8 == 1u8),
{
}

/// The contents of a list of I2C write frames.
pub open spec fn frames_view(frames: Seq<Vec<u8>>) -> Seq<Seq<u8>> {
    frames.map_values(|f: Vec<u8>| f@)
}

/// Command frame that selects page `page` for the following data.
pub open spec fn page_address_command(page: int) -> Seq<u8> {
    seq![0x00u8, 0xB0u8 | (page as u8)]
}

/// Command frame that sets the low nibble of the panel column that shows
/// frame-buffer column `column` (the panel starts two columns in).
pub open spec fn column_low_command(column: int) -> Seq<u8> {
    seq![0x00u8, 0x0Fu8 & ((column + 2) as u8)]
}

/// Command frame that sets the high nibble of the panel column that shows
/// frame-buffer column `column`.
pub open spec fn column_high_command(column: int) -> Seq<u8> {
    seq![0x00u8, 0x10u8 | (((column + 2) as u8) >> 4u8)]
}

/// Data frame that writes one byte of pixels.
pub open spec fn data_frame(byte: u8) -> Seq<u8> {
    seq![0x40u8, byte]
}

/// The frames that send column `column` of page `page`.
pub open spec fn column_frames(pixels: Seq<u8>, page: int, column: int) -> Seq<Seq<u8>> {
    seq![
        column_low_command(column),
        column_high_command(column),
        data_frame(pixels[page * 128 + column]),
    ]
}

/// The frames for the marked bytes among the first `n` columns of page `page`.
pub open spec fn page_column_frames(pixels: Seq<u8>, stencil: Seq<u8>, page: int, n: int) -> Seq<Seq<u8>>
    decreases n,
{
    if n <= 0 {
        Seq::empty()
    } else if stencil[page * 128 + n - 1] != 0 {
        page_column_frames(pixels, stencil, page, n - 1) + column_frames(pixels, page, n - 1)
    } else {
        page_column_frames(pixels, stencil, page, n - 1)
    }
}

/// The frames for page `page`: nothing when it is clean, else its address
/// followed by the frames of its marked bytes.
pub open spec fn page_frames(pixels: Seq<u8>, stencil: Seq<u8>, dirty: Seq<u8>, page: int) -> Seq<Seq<u8>> {
    if dirty[page] != 0 {
        seq![page_address_command(page)] + page_column_frames(pixels, stencil, page, 128)
    } else {
        Seq::empty()
    }
}

/// The frames that bring the first `n` pages of the panel up to date.
pub open spec fn display_frames(pixels: Seq<u8>, stencil: Seq<u8>, dirty: Seq<u8>, n: int) -> Seq<Seq<u8>>
    decreases n,
{
    if n <= 0 {
        Seq::empty()
    } else {
        display_frames(pixels, stencil, dirty, n - 1) + page_frames(pixels, stencil, dirty, n - 1)
    }
}

/// A two-byte write frame.
fn command_frame(control: u8, byte: u8) -> (f: Vec<u8>)
    ensures
        f@ == seq![control, byte],
{
    let mut f: Vec<u8> = Vec::new();
    f.push(control);
    f.push(byte);
    f
}

/// Appending a frame appends its contents.
proof fn lemma_frames_view_push(frames: Seq<Vec<u8>>, f: Vec<u8>)
    ensures
        frames_view(frames.push(f)) == frames_view(frames).push(f@),
{
    assert(frames_view(frames.push(f)) =~= frames_view(frames).push(f@));
}

/// The controller set-up sequence, one write frame per command.
pub open spec fn init_frames() -> Seq<Seq<u8>> {
    seq![
        seq![0x00u8, 0xAEu8],
        seq![0x00u8, 0xD5u8, 0x80u8],
        seq![0x00u8, 0xA8u8, 0x3Eu8],
        seq![0x00u8, 0xD3u8, 0x00u8],
        seq![0x00u8, 0x40u8, 0x00u8],
        seq![0x00u8, 0xADu8, 0x8Bu8],
        seq![0x00u8, 0xDAu8, 0x12u8],
        seq![0x00u8, 0xC8u8],
        seq![0x00u8, 0xA1u8],
        seq![0x00u8, 0x81u8, 0x80u8],
        seq![0x00u8, 0xD9u8, 0xF1u8],
        seq![0x00u8, 0xDBu8, 0x35u8],
        seq![0x00u8, 0xA4u8],
        seq![0x00u8, 0xA6u8],
        seq![0x00u8, 0xAFu8],
    ]
}

/// The set-up sequence: display off; clock divide 0x80; multiplex ratio
/// 0x3E; display offset 0; start line 0; charge pump 0x8B; common pads
/// 0x12; COM scan direction remapped (0xC8); segment remap (0xA1); contrast
/// 0x80; precharge 0xF1; deselect level 0x35; display from RAM (0xA4);
/// normal, not inverted (0xA6); display on.
pub proof fn lemma_init_frames_literal()
    ensures
        init_frames().len() == 15,
        init_frames() == seq![
        seq![0x00u8, 0xAEu8],
        seq![0x00u8, 0xD5u8, 0x80u8],
        seq![0x00u8, 0xA8u8, 0x3Eu8],
        seq![0x00u8, 0xD3u8, 0x00u8],
        seq![0x00u8, 0x40u8, 0x00u8],
        seq![0x00u8, 0xADu8, 0x8Bu8],
        seq![0x00u8, 0xDAu8, 0x12u8],
        seq![0x00u8, 0xC8u8],
        seq![0x00u8, 0xA1u8],
        seq![0x00u8, 0x81u8, 0x80u8],
        seq![0x00u8, 0xD9u8, 0xF1u8],
        seq![0x00u8, 0xDBu8, 0x35u8],
        seq![0x00u8, 0xA4u8],
        seq![0x00u8, 0xA6u8],
        seq![0x00u8, 0xAFu8],
    ],
        init_frames()[7] == seq![0x00u8, 0xC8u8],
{
}

/// A three-byte write frame.
fn command_frame3(control: u8, first: u8, second: u8) -> (f: Vec<u8>)
    ensures
        f@ == seq![control, first, second],
{
    let mut f: Vec<u8> = Vec::new();
    f.push(control);
    f.push(first);
    f.push(second);
    f
}

/// Flipping the four panel pixels of one CHIP-8 pixel keeps every block
/// uniform, and the block's pixels all showed the same value before.
pub proof fn lemma_flip_block_keeps_uniform(before: Seq<u8>, after: Seq<u8>, cx: int, cy: int)
    requires
        0 <= cx < 64,
        0 <= cy < 32,
        forall|px: int, py: int|
            on_panel(px, py) ==> #[trigger] pixel_lit(after, px, py) == (if in_block(cx, cy, px, py) {
                !pixel_lit(before, px, py)
            } else {
                pixel_lit(before, px, py)
            }),
    ensures
        blocks_uniform(before) ==> blocks_uniform(after) && pixel_lit(before, 2 * cx, 2 * cy) == pixel_lit(
            before,
            2 * cx + 1,
            2 * cy + 1,
        ),
{
    if blocks_uniform(before) {
        assert forall|bx: int, by_: int| 0 <= bx < 64 && 0 <= by_ < 32 implies {
            &&& #[trigger] pixel_lit(after, 2 * bx, 2 * by_) == pixel_lit(after, 2 * bx + 1, 2 * by_)
            &&& pixel_lit(after, 2 * bx, 2 * by_) == pixel_lit(after, 2 * bx, 2 * by_ + 1)
            &&& pixel_lit(after, 2 * bx, 2 * by_) == pixel_lit(after, 2 * bx + 1, 2 * by_ + 1)
        } by {
            assert(pixel_lit(before, 2 * bx, 2 * by_) == pixel_lit(before, 2 * bx + 1, 2 * by_));
            assert(pixel_lit(after, 2 * bx + 1, 2 * by_) == pixel_lit(after, 2 * bx + 1, 2 * by_));
            assert(pixel_lit(after, 2 * bx, 2 * by_ + 1) == pixel_lit(after, 2 * bx, 2 * by_ + 1));
            assert(pixel_lit(after, 2 * bx + 1, 2 * by_ + 1) == pixel_lit(after, 2 * bx + 1, 2 * by_ + 1));
        }
        assert(pixel_lit(before, 2 * cx, 2 * cy) == pixel_lit(before, 2 * cx + 1, 2 * cy + 1));
    }
}

/// Frame buffer of the panel with per-byte and per-page change tracking.
pub struct Screen {
    pixels: [u8; DISPLAY_SIZE],
    stencil: [u8; DISPLAY_SIZE],
    dirty: [u8; PAGE_SIZE],
}

impl Screen {
    /// The frame buffer, one byte per column of a page.
    pub closed spec fn pixels_view(&self) -> Seq<u8> {
        self.pixels@
    }

    /// Per-byte change marks: a nonzero byte has not been sent since it changed.
    pub closed spec fn stencil_view(&self) -> Seq<u8> {
        self.stencil@
    }

    /// Per-page change marks: a nonzero entry means the page needs sending.
    pub closed spec fn dirty_view(&self) -> Seq<u8> {
        self.dirty@
    }

    /// Whether panel pixel `(x, y)` is lit.
    pub open spec fn lit(&self, x: int, y: int) -> bool {
        pixel_lit(self.pixels_view(), x, y)
    }

    /// Well-formedness: the buffer has 1024 bytes in eight pages.
    pub open spec fn wf(&self) -> bool {
        &&& self.pixels_view().len() == 1024
        &&& self.stencil_view().len() == 1024
        &&& self.dirty_view().len() == 8
    }

    /// Every byte marked changed lies in a page marked dirty, so that
    /// `display` sends it.
    pub open spec fn marks_consistent(&self) -> bool {
        forall|i: int| 0 <= i < 1024 && #[trigger] self.stencil_view()[i] != 0 ==> self.dirty_view()[i / 128] != 0
    }

    /// A blank screen whose every byte and page is marked for sending.
    pub fn new() -> (s: Screen)
        ensures
            s.wf(),
            s.marks_consistent(),
            s.pixels_view() == Seq::new(1024, |i: int| 0u8),
            s.stencil_view() == Seq::new(1024, |i: int| 1u8),
            s.dirty_view() == Seq::new(8, |i: int| 1u8),
    {
        let s = Screen { pixels: [0u8; DISPLAY_SIZE], stencil: [1u8; DISPLAY_SIZE], dirty: [1u8; PAGE_SIZE] };
        assert(s.pixels_view() =~= Seq::new(1024, |i: int| 0u8));
        assert(s.stencil_view() =~= Seq::new(1024, |i: int| 1u8));
        assert(s.dirty_view() =~= Seq::new(8, |i: int| 1u8));
        s
    }

    /// Toggles the pixel at buffer position `(x, y)`, marks its byte changed
    /// and page `y / 8` dirty, and returns whether the pixel was lit before.
    /// A column `x` past the right edge reaches the next page, which is then
    /// not the page marked dirty.
    pub fn put_pixel(&mut self, x: u8, y: u8) -> (collision: bool)
        requires
            old(self).wf(),
            (y as int) < 64,
            byte_index(x as int, y as int) < 1024,
        ensures
            final(self).wf(),
            old(self).marks_consistent() && x < 128 ==> final(self).marks_consistent(),
            collision == old(self).lit(panel_x(x as int), panel_y(x as int, y as int)),
            final(self).pixels_view() == old(self).pixels_view().update(
                byte_index(x as int, y as int),
                old(self).pixels_view()[byte_index(x as int, y as int)] ^ bit_mask(y as int % 8),
            ),
            final(self).stencil_view() == old(self).stencil_view().update(
                byte_index(x as int, y as int),
                old(self).stencil_view()[byte_index(x as int, y as int)] | bit_mask(y as int % 8),
            ),
            final(self).dirty_view() == old(self).dirty_view().update(y as int / 8, 1u8),
            forall|px: int, py: int|
                on_panel(px, py) ==> #[trigger] final(self).lit(px, py) == (if px == panel_x(x as int) && py
                    == panel_y(x as int, y as int) {
                    !old(self).lit(px, py)
                } else {
                    old(self).lit(px, py)
                }),
    {
        let page = y as usize / PAGE_SIZE;
        let byte: usize = page * DISPLAY_WIDTH + x as usize;
        let bit = y as usize % PAGE_SIZE;
        let mask: u8 = 0b00000001u8 << bit;
        let ghost cx = panel_x(x as int);
        let ghost cy = panel_y(x as int, y as int);
        proof {
            if x < 128 {
                assert(cx == x && cy == y);
            } else {
                assert(cx == x - 128 && cy == y + 8);
            }
            assert(on_panel(cx, cy));
            assert(byte_index(cx, cy) == byte as int);
            assert(cy % 8 == y % 8);
            assert(mask == bit_mask(y as int % 8));
            lemma_mask_tests_bit(self.pixels@[byte as int], bit as u8);
        }
        let collision = self.pixels[byte] & mask != 0;
        self.pixels[byte] = self.pixels[byte] ^ mask;
        self.stencil[byte] = self.stencil[byte] | mask;
        self.dirty[page] = 1;
        proof {
            lemma_toggle_pixel(old(self).pixels@, self.pixels@, cx, cy);
        }
        collision
    }

    /// Blanks the screen and marks every byte and page for sending.
    pub fn clear(&mut self)
        ensures
            final(self).wf(),
            final(self).marks_consistent(),
            final(self).pixels_view() == Seq::new(1024, |i: int| 0u8),
            final(self).stencil_view() == Seq::new(1024, |i: int| 1u8),
            final(self).dirty_view() == Seq::new(8, |i: int| 1u8),
            forall|px: int, py: int| on_panel(px, py) ==> !#[trigger] final(self).lit(px, py),
            blocks_uniform(final(self).pixels_view()),
    {
        let mut i: usize = 0;
        while i < DISPLAY_SIZE
            invariant
                0 <= i <= DISPLAY_SIZE,
                forall|k: int| 0 <= k < i ==> self.pixels@[k] == 0u8 && self.stencil@[k] == 1u8,
            decreases DISPLAY_SIZE - i,
        {
            self.pixels[i] = 0;
            self.stencil[i] = 1;
            i = i + 1;
        }
        let mut j: usize = 0;
        while j < PAGE_SIZE
            invariant
                0 <= j <= PAGE_SIZE,
                forall|k: int| 0 <= k < i ==> self.pixels@[k] == 0u8 && self.stencil@[k] == 1u8,
                i == DISPLAY_SIZE,
                forall|k: int| 0 <= k < j ==> self.dirty@[k] == 1u8,
            decreases PAGE_SIZE - j,
        {
            self.dirty[j] = 1;
            j = j + 1;
        }
        assert(self.pixels@ =~= Seq::new(1024, |i: int| 0u8));
        assert(self.stencil@ =~= Seq::new(1024, |i: int| 1u8));
        assert(self.dirty@ =~= Seq::new(8, |i: int| 1u8));
        assert forall|px: int, py: int| on_panel(px, py) implies !#[trigger] pixel_lit(self.pixels@, px, py) by {
            lemma_zero_byte_dark((py % 8) as u8);
        }
        assert forall|px: int, py: int| on_panel(px, py) implies !#[trigger] self.lit(px, py) by {
            assert(!pixel_lit(self.pixels@, px, py));
        }
    }

    /// Toggles the four panel pixels that show CHIP-8 pixel `(x, y)` and
    /// returns whether the last of them, the lower right one, was lit before.
    /// A column past the right edge of the CHIP-8 screen reaches four rows
    /// further down.
    #[verifier::rlimit(60)]
    pub fn draw(&mut self, x: u8, y: u8) -> (collision: bool)
        requires
            old(self).wf(),
            (x as int) < 128,
            screen_y(x as int, y as int) < 32,
        ensures
            final(self).wf(),
            old(self).marks_consistent() && x < 64 ==> final(self).marks_consistent(),
            collision == old(self).lit(
                2 * screen_x(x as int) + 1,
                2 * screen_y(x as int, y as int) + 1,
            ),
            forall|px: int, py: int|
                on_panel(px, py) ==> #[trigger] final(self).lit(px, py) == (if in_block(
                    screen_x(x as int),
                    screen_y(x as int, y as int),
                    px,
                    py,
                ) {
                    !old(self).lit(px, py)
                } else {
                    old(self).lit(px, py)
                }),
            final(self).stencil_view() == old(self).stencil_view().update(
                byte_index(2 * x, 2 * y),
                old(self).stencil_view()[byte_index(2 * x, 2 * y)] | bit_mask(2 * y % 8) | bit_mask((2 * y + 1) % 8),
            ).update(
                byte_index(2 * x + 1, 2 * y),
                old(self).stencil_view()[byte_index(2 * x + 1, 2 * y)] | bit_mask(2 * y % 8) | bit_mask((2 * y + 1) % 8),
            ),
            final(self).dirty_view() == old(self).dirty_view().update(2 * y / 8, 1u8),
            blocks_uniform(old(self).pixels_view()) ==> blocks_uniform(final(self).pixels_view())
                && collision == old(self).lit(2 * screen_x(x as int), 2 * screen_y(x as int, y as int)),
    {
        let ghost cx = screen_x(x as int);
        let ghost cy = screen_y(x as int, y as int);
        proof {
            if x < 64 {
                assert(cx == x && cy == y);
            } else {
                assert(cx == x - 64 && cy == y + 4);
            }
            assert(panel_x(2 * x) == 2 * cx && panel_y(2 * x, 2 * y) == 2 * cy);
            assert(panel_x(2 * x) == 2 * cx && panel_y(2 * x, 2 * y + 1) == 2 * cy + 1);
            assert(panel_x(2 * x + 1) == 2 * cx + 1 && panel_y(2 * x + 1, 2 * y) == 2 * cy);
            assert(panel_x(2 * x + 1) == 2 * cx + 1 && panel_y(2 * x + 1, 2 * y + 1) == 2 * cy + 1);
            assert(byte_index(2 * x + 1, 2 * y + 1) < 1024);
        }
        self.put_pixel(x * 2, y * 2);
        self.put_pixel(x * 2, y * 2 + 1);
        self.put_pixel(x * 2 + 1, y * 2);
        let collision = self.put_pixel(x * 2 + 1, y * 2 + 1);
        proof {
            let ghost before = old(self).pixels_view();
            let ghost after = self.pixels_view();
            assert forall|px: int, py: int| on_panel(px, py) implies #[trigger] pixel_lit(after, px, py) == (
            if in_block(cx, cy, px, py) {
                !pixel_lit(before, px, py)
            } else {
                pixel_lit(before, px, py)
            }) by {
                assert(self.lit(px, py) == pixel_lit(after, px, py));
            }
            lemma_flip_block_keeps_uniform(before, after, cx, cy);
        }
        collision
    }

    /// Sends every page marked dirty: the page address, then for each marked
    /// byte of it the column address and the byte; clears the marks of those
    /// pages and every page mark. Returns the frames in the order they go to
    /// the controller.
    pub fn display(&mut self) -> (frames: Vec<Vec<u8>>)
        requires
            old(self).wf(),
        ensures
            final(self).wf(),
            frames_view(frames@) == display_frames(
                old(self).pixels_view(),
                old(self).stencil_view(),
                old(self).dirty_view(),
                8,
            ),
            final(self).pixels_view() == old(self).pixels_view(),
            final(self).stencil_view() == Seq::new(
                1024,
                |i: int|
                    if old(self).dirty_view()[i / 128] != 0 {
                        0u8
                    } else {
                        old(self).stencil_view()[i]
                    },
            ),
            final(self).dirty_view() == Seq::new(8, |i: int| 0u8),
            old(self).marks_consistent() ==> final(self).marks_consistent() && final(self).stencil_view()
                == Seq::new(1024, |i: int| 0u8),
    {
        let ghost op = self.pixels@;
        let ghost os = self.stencil@;
        let ghost od = self.dirty@;
        let mut frames: Vec<Vec<u8>> = Vec::new();
        let mut page: usize = 0;
        while page < PAGE_SIZE
            invariant
                0 <= page <= PAGE_SIZE,
                op.len() == 1024,
                os.len() == 1024,
                od.len() == 8,
                self.pixels@ == op,
                frames_view(frames@) == display_frames(op, os, od, page as int),
                forall|i: int| 0 <= i < 1024 ==> #[trigger] self.stencil@[i] == if i / 128 < page && od[i
                    / 128] != 0 {
                    0u8
                } else {
                    os[i]
                },
                forall|j: int| 0 <= j < 8 ==> #[trigger] self.dirty@[j] == if j < page {
                    0u8
                } else {
                    od[j]
                },
            decreases PAGE_SIZE - page,
        {
            if self.dirty[page] != 0 {
                let address = command_frame(0x00, 0xB0u8 | page as u8);
                proof {
                    lemma_frames_view_push(frames@, address);
                }
                frames.push(address);
                let mut column: usize = 0;
                while column < DISPLAY_WIDTH
                    invariant
                        0 <= column <= DISPLAY_WIDTH,
                        page < PAGE_SIZE,
                        op.len() == 1024,
                        os.len() == 1024,
                        od.len() == 8,
                        od[page as int] != 0,
                        forall|j: int| 0 <= j < 8 ==> #[trigger] self.dirty@[j] == if j < page {
                            0u8
                        } else {
                            od[j]
                        },
                        self.pixels@ == op,
                        frames_view(frames@) == display_frames(op, os, od, page as int) + seq![
                            page_address_command(page as int),
                        ] + page_column_frames(op, os, page as int, column as int),
                        forall|i: int| 0 <= i < 1024 ==> #[trigger] self.stencil@[i] == if i / 128 < page
                            && od[i / 128] != 0 {
                            0u8
                        } else if i / 128 == page && i % 128 < column {
                            0u8
                        } else {
                            os[i]
                        },
                    decreases DISPLAY_WIDTH - column,
                {
                    let position = page * DISPLAY_WIDTH + column;
                    if self.stencil[position] != 0 {
                        self.stencil[position] = 0;
                        let paint_cmd = command_frame(0x40, self.pixels[position]);
                        let low = command_frame(0x00, 0x0Fu8 & (column + 2) as u8);
                        let high = command_frame(0x00, 0x10u8 | ((column + 2) as u8 >> 4u8));
                        proof {
                            lemma_frames_view_push(frames@, low);
                            lemma_frames_view_push(frames@.push(low), high);
                            lemma_frames_view_push(frames@.push(low).push(high), paint_cmd);
                        }
                        frames.push(low);
                        frames.push(high);
                        frames.push(paint_cmd);
                        proof {
                            assert(frames_view(frames@) =~= display_frames(op, os, od, page as int) + seq![
                                page_address_command(page as int),
                            ] + page_column_frames(op, os, page as int, column as int + 1));
                        }
                    }
                    column = column + 1;
                }
                proof {
                    assert(display_frames(op, os, od, page as int + 1) =~= display_frames(op, os, od, page as int) + seq![
                        page_address_command(page as int),
                    ] + page_column_frames(op, os, page as int, 128));
                }
            } else {
                proof {
                    assert(display_frames(op, os, od, page as int + 1) =~= display_frames(op, os, od, page as int));
                }
            }
            self.dirty[page] = 0;
            page = page + 1;
        }
        assert(self.stencil@ =~= Seq::new(1024, |i: int| if od[i / 128] != 0 { 0u8 } else { os[i] }));
        assert(self.dirty@ =~= Seq::new(8, |i: int| 0u8));
        proof {
            if old(self).marks_consistent() {
                assert(self.stencil@ =~= Seq::new(1024, |i: int| 0u8));
            }
        }
        frames
    }

    /// The frames that switch the controller off, configure clock, multiplex
    /// ratio, offset, start line, charge pump, pad layout, scan direction,
    /// contrast, precharge and deselect level, and switch it back on.
    pub fn init(&self) -> (frames: Vec<Vec<u8>>)
        ensures
            frames_view(frames@) == init_frames(),
            frames@.len() == 15,
            frames_view(frames@) == seq![
                seq![0x00u8, 0xAEu8],
                seq![0x00u8, 0xD5u8, 0x80u8],
                seq![0x00u8, 0xA8u8, 0x3Eu8],
                seq![0x00u8, 0xD3u8, 0x00u8],
                seq![0x00u8, 0x40u8, 0x00u8],
                seq![0x00u8, 0xADu8, 0x8Bu8],
                seq![0x00u8, 0xDAu8, 0x12u8],
                seq![0x00u8, 0xC8u8],
                seq![0x00u8, 0xA1u8],
                seq![0x00u8, 0x81u8, 0x80u8],
                seq![0x00u8, 0xD9u8, 0xF1u8],
                seq![0x00u8, 0xDBu8, 0x35u8],
                seq![0x00u8, 0xA4u8],
                seq![0x00u8, 0xA6u8],
                seq![0x00u8, 0xAFu8],
            ],
            frames@[0]@ == seq![0x00u8, 0xAEu8],
            frames@[7]@ == seq![0x00u8, 0xC8u8],
            frames@[8]@ == seq![0x00u8, 0xA1u8],
            frames@[14]@ == seq![0x00u8, 0xAFu8],
    {
        let mut frames: Vec<Vec<u8>> = Vec::new();
        frames.push(command_frame(0x00, 0xAE)); // Display Off
        frames.push(command_frame3(0x00, 0xD5, 0x80)); // Display Clock Div
        frames.push(command_frame3(0x00, 0xA8, 0x3E)); // Multiplex
        frames.push(command_frame3(0x00, 0xD3, 0x00)); // Display Offset
        frames.push(command_frame3(0x00, 0x40, 0x00)); // Start Line
        frames.push(command_frame3(0x00, 0xAD, 0x8B)); // Charge Pump
        frames.push(command_frame3(0x00, 0xDA, 0x12)); // Common Pads Pin Config
        frames.push(command_frame(0x00, 0xC8)); // Segment Remap
        frames.push(command_frame(0x00, 0xA1)); // Reverse COM Dir
        frames.push(command_frame3(0x00, 0x81, 0x80)); // Contrast
        frames.push(command_frame3(0x00, 0xD9, 0xF1)); // Pre Charge Period
        frames.push(command_frame3(0x00, 0xDB, 0x35)); // Common Voltage Level Deselect
        frames.push(command_frame(0x00, 0xA4)); // All on
        frames.push(command_frame(0x00, 0xA6)); // Invert
        frames.push(command_frame(0x00, 0xAF)); // Display On
        assert(frames_view(frames@) =~= init_frames());
        proof {
            lemma_init_frames_literal();
        }
        frames
    }
}

/// Toggling a byte's bit twice gives the byte back.
pub proof fn lemma_xor_twice(p: u8, m: u8)
    by (bit_vector)
    ensures
        (p ^ m) ^ m == p,
{
}

/// Toggling the same panel pixel twice leaves the frame buffer as it was.
pub proof fn lemma_toggle_twice_restores(pixels: Seq<u8>, x: int, y: int)
    requires
        pixels.len() == 1024,
        0 <= x < 256,
        0 <= y < 64,
        byte_index(x, y) < 1024,
    ensures
        ({
            let b = byte_index(x, y);
            let once = pixels.update(b, pixels[b] ^ bit_mask(y % 8));
            once.update(b, once[b] ^ bit_mask(y % 8)) == pixels
        }),
{
    let b = byte_index(x, y);
    let once = pixels.update(b, pixels[b] ^ bit_mask(y % 8));
    lemma_xor_twice(pixels[b], bit_mask(y % 8));
    assert(once.update(b, once[b] ^ bit_mask(y % 8)) =~= pixels);
}

/// Drawing the same CHIP-8 pixel twice leaves every panel pixel as it was:
/// `before`, `middle` and `after` are frame buffers related as `draw`
/// relates the buffer before and after a call.
pub proof fn lemma_draw_twice_restores(before: Seq<u8>, middle: Seq<u8>, after: Seq<u8>, x: int, y: int)
    requires
        0 <= x < 64,
        0 <= y < 32,
        forall|px: int, py: int|
            on_panel(px, py) ==> #[trigger] pixel_lit(middle, px, py) == (if in_block(x, y, px, py) {
                !pixel_lit(before, px, py)
            } else {
                pixel_lit(before, px, py)
            }),
        forall|px: int, py: int|
            on_panel(px, py) ==> #[trigger] pixel_lit(after, px, py) == (if in_block(x, y, px, py) {
                !pixel_lit(middle, px, py)
            } else {
                pixel_lit(middle, px, py)
            }),
    ensures
        forall|px: int, py: int| on_panel(px, py) ==> #[trigger] pixel_lit(after, px, py) == pixel_lit(before, px, py),
{
    assert forall|px: int, py: int| on_panel(px, py) implies #[trigger] pixel_lit(after, px, py) == pixel_lit(
        before,
        px,
        py,
    ) by {
        assert(pixel_lit(middle, px, py) == (if in_block(x, y, px, py) {
            !pixel_lit(before, px, py)
        } else {
            pixel_lit(before, px, py)
        }));
    }
}

/// With no page marked dirty nothing is sent.
pub proof fn lemma_clean_pages_send_nothing(pixels: Seq<u8>, stencil: Seq<u8>, dirty: Seq<u8>, n: int)
    requires
        0 <= n <= dirty.len(),
        forall|j: int| 0 <= j < dirty.len() ==> dirty[j] == 0,
    ensures
        display_frames(pixels, stencil, dirty, n) == Seq::<Seq<u8>>::empty(),
    decreases n,
{
    if n > 0 {
        lemma_clean_pages_send_nothing(pixels, stencil, dirty, n - 1);
        assert(display_frames(pixels, stencil, dirty, n) =~= Seq::<Seq<u8>>::empty());
    }
}

/// Once the panel has been brought up to date, bringing it up to date again
/// sends nothing: the state `display` leaves behind has no page to send.
pub proof fn lemma_display_settles(pixels: Seq<u8>)
    ensures
        display_frames(pixels, Seq::new(1024, |i: int| 0u8), Seq::new(8, |i: int| 0u8), 8)
            == Seq::<Seq<u8>>::empty(),
{
    lemma_clean_pages_send_nothing(pixels, Seq::new(1024, |i: int| 0u8), Seq::new(8, |i: int| 0u8), 8);
}

} // verus!
