//! A model of the display controller's response to write frames, and the
//! law that the frames `Screen::display` sends bring the panel in line with
//! the frame buffer.
use vstd::prelude::*;
use crate::screen::{
    bit_mask, byte_index,
    column_frames, column_high_command, column_low_command, data_frame, display_frames,
    page_address_command, page_column_frames, page_frames,
};

verus! {

/// The controller's display RAM (eight pages of 132 columns) and its
/// page and column address pointers.
pub struct PanelState {
    pub ram: Seq<u8>,
    pub page: int,
    pub column: int,
}

/// Where the controller keeps frame-buffer byte `i`: page `i / 128`, two
/// columns in from the left edge of its 132.
pub open spec fn panel_index(i: int) -> int {
    (i / 128) * 132 + i % 128 + 2
}

/// The controller's response to one write frame. A command frame (control
/// byte 0x00) may set the page (0xB0 | page), the low nibble (0x00 | low) or
/// the high nibble (0x10 | high) of the column; a data frame (control byte
/// 0x40) stores its byte at the current page and column and moves to the next
/// column.
pub open spec fn apply_frame(st: PanelState, frame: Seq<u8>) -> PanelState {
    if frame.len() == 2 && frame[0] == 0x00u8 {
        let c = frame[1];
        if c & 0xF0u8 == 0xB0u8 {
            PanelState { page: (c & 0x0Fu8) as int, ..st }
        } else if c & 0xF0u8 == 0x00u8 {
            PanelState { column: (st.column / 16) * 16 + (c & 0x0Fu8) as int, ..st }
        } else if c & 0xF0u8 == 0x10u8 {
            PanelState { column: (c & 0x0Fu8) as int * 16 + st.column % 16, ..st }
        } else {
            st
        }
    } else if frame.len() == 2 && frame[0] == 0x40u8 {
        let at = st.page * 132 + st.column;
        PanelState {
            ram: if 0 <= at < st.ram.len() {
                st.ram.update(at, frame[1])
            } else {
                st.ram
            },
            column: st.column + 1,
            ..st
        }
    } else {
        st
    }
}

/// The controller's response to a sequence of write frames, in order.
pub open spec fn apply_frames(st: PanelState, frames: Seq<Seq<u8>>) -> PanelState
    decreases frames.len(),
{
    if frames.len() == 0 {
        st
    } else {
        apply_frame(apply_frames(st, frames.drop_last()), frames.last())
    }
}

/// Whether the panel shows frame-buffer byte `i`.
pub open spec fn shows(ram: Seq<u8>, pixels: Seq<u8>, i: int) -> bool {
    ram[panel_index(i)] == pixels[i]
}

/// Sending `a` then `b` is sending `a + b`.
pub proof fn lemma_apply_append(st: PanelState, a: Seq<Seq<u8>>, b: Seq<Seq<u8>>)
    ensures
        apply_frames(st, a + b) == apply_frames(apply_frames(st, a), b),
    decreases b.len(),
{
    if b.len() == 0 {
        assert(a + b =~= a);
    } else {
        lemma_apply_append(st, a, b.drop_last());
        assert((a + b).drop_last() =~= a + b.drop_last());
        assert((a + b).last() == b.last());
    }
}

/// Sending a single frame.
proof fn lemma_apply_single(st: PanelState, frame: Seq<u8>)
    ensures
        apply_frames(st, seq![frame]) == apply_frame(st, frame),
{
    let fs = seq![frame];
    assert(fs.drop_last() =~= Seq::<Seq<u8>>::empty());
    assert(apply_frames(st, fs.drop_last()) == st);
    assert(fs.last() == frame);
}

/// Facts about the column address bytes of a column below 128.
proof fn lemma_column_nibbles(c: u8)
    by (bit_vector)
    requires
        2 <= c < 130,
    ensures
        (0x0Fu8 & c) & 0xF0u8 == 0x00u8,
        (0x0Fu8 & c) & 0x0Fu8 == c % 16,
        (0x10u8 | (c >> 4u8)) & 0xF0u8 == 0x10u8,
        (0x10u8 | (c >> 4u8)) & 0x0Fu8 == c / 16,
        (0x10u8 | (c >> 4u8)) & 0xF0u8 != 0xB0u8,
        (0x0Fu8 & c) & 0xF0u8 != 0xB0u8,
{
}

/// The page address byte of a page below 8.
proof fn lemma_page_byte(p: u8)
    by (bit_vector)
    requires
        p < 8,
    ensures
        (0xB0u8 | p) & 0xF0u8 == 0xB0u8,
        (0xB0u8 | p) & 0x0Fu8 == p,
{
}

/// Sending the frames of column `column` of page `page` stores its byte
/// where the controller shows that column, and touches nothing else.
proof fn lemma_column_frames_effect(st: PanelState, pixels: Seq<u8>, page: int, column: int)
    requires
        0 <= page < 8,
        0 <= column < 128,
        st.page == page,
        st.ram.len() == 8 * 132,
        pixels.len() == 1024,
    ensures
        apply_frames(st, column_frames(pixels, page, column)).page == page,
        apply_frames(st, column_frames(pixels, page, column)).ram == st.ram.update(
            page * 132 + column + 2,
            pixels[page * 128 + column],
        ),
{
    let c: u8 = (column + 2) as u8;
    lemma_column_nibbles(c);
    let fs = column_frames(pixels, page, column);
    let s1 = apply_frame(st, column_low_command(column));
    let s2 = apply_frame(s1, column_high_command(column));
    let s3 = apply_frame(s2, data_frame(pixels[page * 128 + column]));
    assert(s1.column == (st.column / 16) * 16 + c % 16);
    assert(s2.column == (c / 16) * 16 + c % 16);
    assert(s2.column == column + 2);
    assert(fs.drop_last().drop_last() =~= seq![column_low_command(column)]);
    lemma_apply_single(st, column_low_command(column));
    assert(fs.drop_last() =~= seq![column_low_command(column), column_high_command(column)]);
    assert(apply_frames(st, fs.drop_last().drop_last()) == s1);
    assert(apply_frames(st, fs.drop_last()) == s2);
    assert(apply_frames(st, fs) == s3);
}

/// The RAM after sending the marked bytes among the first `n` columns of
/// page `page`.
pub open spec fn ram_after_columns(ram: Seq<u8>, pixels: Seq<u8>, stencil: Seq<u8>, page: int, n: int) -> Seq<u8> {
    Seq::new(
        ram.len(),
        |k: int|
            if page * 132 + 2 <= k < page * 132 + 2 + n && stencil[page * 128 + (k - page * 132 - 2)] != 0 {
                pixels[page * 128 + (k - page * 132 - 2)]
            } else {
                ram[k]
            },
    )
}

/// Sending the column frames of page `page` stores each marked byte where
/// the controller shows it, and touches nothing else.
proof fn lemma_page_columns_effect(st: PanelState, pixels: Seq<u8>, stencil: Seq<u8>, page: int, n: int)
    requires
        0 <= page < 8,
        0 <= n <= 128,
        st.page == page,
        st.ram.len() == 8 * 132,
        pixels.len() == 1024,
        stencil.len() == 1024,
    ensures
        apply_frames(st, page_column_frames(pixels, stencil, page, n)).page == page,
        apply_frames(st, page_column_frames(pixels, stencil, page, n)).ram == ram_after_columns(
            st.ram,
            pixels,
            stencil,
            page,
            n,
        ),
    decreases n,
{
    if n == 0 {
        assert(ram_after_columns(st.ram, pixels, stencil, page, 0) =~= st.ram);
    } else {
        lemma_page_columns_effect(st, pixels, stencil, page, n - 1);
        let prev = page_column_frames(pixels, stencil, page, n - 1);
        let mid = apply_frames(st, prev);
        if stencil[page * 128 + n - 1] != 0 {
            lemma_apply_append(st, prev, column_frames(pixels, page, n - 1));
            lemma_column_frames_effect(mid, pixels, page, n - 1);
        }
        assert(apply_frames(st, page_column_frames(pixels, stencil, page, n)).ram =~= ram_after_columns(
            st.ram,
            pixels,
            stencil,
            page,
            n,
        ));
    }
}

/// Whether every byte of the first `n` pages, and every unmarked byte of
/// the others, is shown by the panel.
pub open spec fn shown_up_to(ram: Seq<u8>, pixels: Seq<u8>, stencil: Seq<u8>, n: int) -> bool {
    forall|i: int| 0 <= i < 1024 && (i / 128 < n || stencil[i] == 0) ==> #[trigger] shows(ram, pixels, i)
}

/// The frame-buffer byte a RAM location of a page shows.
proof fn lemma_panel_index_inverse(i: int)
    requires
        0 <= i < 1024,
    ensures
        0 <= panel_index(i) < 8 * 132,
        (i / 128) * 132 + 2 <= panel_index(i) < (i / 128) * 132 + 2 + 128,
        panel_index(i) - (i / 128) * 132 - 2 == i % 128,
        (i / 128) * 128 + i % 128 == i,
{
}

/// Sending the frames of the first `n` pages shows every byte of those
/// pages, and keeps every byte of the others that was shown.
proof fn lemma_display_pages_effect(
    st: PanelState,
    pixels: Seq<u8>,
    stencil: Seq<u8>,
    dirty: Seq<u8>,
    n: int,
)
    requires
        0 <= n <= 8,
        st.ram.len() == 8 * 132,
        pixels.len() == 1024,
        stencil.len() == 1024,
        dirty.len() == 8,
        forall|i: int| 0 <= i < 1024 && #[trigger] stencil[i] != 0 ==> dirty[i / 128] != 0,
        shown_up_to(st.ram, pixels, stencil, 0),
    ensures
        apply_frames(st, display_frames(pixels, stencil, dirty, n)).ram.len() == 8 * 132,
        shown_up_to(apply_frames(st, display_frames(pixels, stencil, dirty, n)).ram, pixels, stencil, n),
    decreases n,
{
    if n > 0 {
        let p = n - 1;
        lemma_display_pages_effect(st, pixels, stencil, dirty, p);
        let prev = display_frames(pixels, stencil, dirty, p);
        let mid = apply_frames(st, prev);
        lemma_apply_append(st, prev, page_frames(pixels, stencil, dirty, p));
        let fin = apply_frames(st, display_frames(pixels, stencil, dirty, n));
        if dirty[p] != 0 {
            let addr = seq![page_address_command(p)];
            let cols = page_column_frames(pixels, stencil, p, 128);
            lemma_apply_append(mid, addr, cols);
            lemma_page_byte(p as u8);
            let at_page = apply_frames(mid, addr);
            lemma_apply_single(mid, page_address_command(p));
            assert(at_page.page == p);
            assert(at_page.ram == mid.ram);
            lemma_page_columns_effect(at_page, pixels, stencil, p, 128);
            assert(fin.ram == ram_after_columns(mid.ram, pixels, stencil, p, 128));
            assert forall|i: int| 0 <= i < 1024 && (i / 128 < n || stencil[i] == 0) implies #[trigger] shows(
                fin.ram,
                pixels,
                i,
            ) by {
                lemma_panel_index_inverse(i);
                if i / 128 == p {
                    if stencil[i] == 0 {
                        assert(shows(mid.ram, pixels, i));
                    }
                } else {
                    assert(shows(mid.ram, pixels, i));
                }
            }
        } else {
            assert(page_frames(pixels, stencil, dirty, p) =~= Seq::<Seq<u8>>::empty());
            assert(fin == mid);
            assert forall|i: int| 0 <= i < 1024 && (i / 128 < n || stencil[i] == 0) implies #[trigger] shows(
                fin.ram,
                pixels,
                i,
            ) by {
                if i / 128 == p {
                    assert(stencil[i] == 0);
                }
                assert(shows(mid.ram, pixels, i));
            }
        }
    }
}

/// The frames `Screen::display` sends bring the panel in line with the frame
/// buffer: if the panel already showed every byte not marked as changed,
/// then after the frames are applied it shows every byte of the buffer.
pub proof fn lemma_display_syncs_panel(st: PanelState, pixels: Seq<u8>, stencil: Seq<u8>, dirty: Seq<u8>)
    requires
        st.ram.len() == 8 * 132,
        pixels.len() == 1024,
        stencil.len() == 1024,
        dirty.len() == 8,
        forall|i: int| 0 <= i < 1024 && #[trigger] stencil[i] != 0 ==> dirty[i / 128] != 0,
        forall|i: int| 0 <= i < 1024 && stencil[i] == 0 ==> #[trigger] shows(st.ram, pixels, i),
    ensures
        forall|i: int|
            0 <= i < 1024 ==> #[trigger] shows(
                apply_frames(st, display_frames(pixels, stencil, dirty, 8)).ram,
                pixels,
                i,
            ),
{
    lemma_display_pages_effect(st, pixels, stencil, dirty, 8);
}

/// A single-bit mask is never zero.
proof fn lemma_bit_mask_nonzero(s: u8, bit: u8)
    by (bit_vector)
    requires
        bit < 8,
    ensures
        s | (1u8 << bit) != 0u8,
{
}

/// Toggling a pixel keeps the panel in step: a panel that shows every byte
/// not marked as changed still does so after `put_pixel`, since the byte it
/// changes is marked.
pub proof fn lemma_put_pixel_keeps_panel_in_step(
    ram: Seq<u8>,
    pixels: Seq<u8>,
    stencil: Seq<u8>,
    new_pixels: Seq<u8>,
    new_stencil: Seq<u8>,
    x: int,
    y: int,
)
    requires
        ram.len() == 8 * 132,
        pixels.len() == 1024,
        stencil.len() == 1024,
        0 <= x < 256,
        0 <= y < 64,
        byte_index(x, y) < 1024,
        new_pixels == pixels.update(byte_index(x, y), pixels[byte_index(x, y)] ^ bit_mask(y % 8)),
        new_stencil == stencil.update(byte_index(x, y), stencil[byte_index(x, y)] | bit_mask(y % 8)),
        forall|i: int| 0 <= i < 1024 && stencil[i] == 0 ==> #[trigger] shows(ram, pixels, i),
    ensures
        forall|i: int| 0 <= i < 1024 && new_stencil[i] == 0 ==> #[trigger] shows(ram, new_pixels, i),
{
    let b = byte_index(x, y);
    lemma_bit_mask_nonzero(stencil[b], (y % 8) as u8);
    assert forall|i: int| 0 <= i < 1024 && new_stencil[i] == 0 implies #[trigger] shows(ram, new_pixels, i) by {
        if i != b {
            assert(shows(ram, pixels, i));
        }
    }
}

} // verus!
