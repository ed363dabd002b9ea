//! The size of the client's terminal window.
use vstd::prelude::*;

verus! {

/// Size of a terminal, in cells and in pixels.
#[derive(Debug, Clone, Copy, PartialEq, Eq, Structural)]
pub struct PtySize {
    pub rows: u16,
    pub cols: u16,
    pub pixel_width: u16,
    pub pixel_height: u16,
}

/// A number of cells brought into the range that a terminal can have.
pub open spec fn clamped(cells: u32) -> u16 {
    if cells < 1 {
        1
    } else if cells > u16::MAX {
        u16::MAX
    } else {
        cells as u16
    }
}

/// Brings a requested number of columns or rows into `1..=65535`.
pub fn clamp_cells(cells: u32) -> (fitting: u16)
    ensures
        fitting == clamped(cells),
{
    if cells < 1 {
        1
    } else if cells > 0xffff {
        0xffff
    } else {
        cells as u16
    }
}

/// A terminal of `cols` by `rows` cells, whose size in pixels is not known.
pub fn pty_size(cols: u16, rows: u16) -> (size: PtySize)
    ensures
        size == (PtySize { rows, cols, pixel_width: 0, pixel_height: 0 }),
{
    PtySize { rows, cols, pixel_width: 0, pixel_height: 0 }
}

/// A number of cells that a terminal can have is kept. Any other becomes the
/// nearest that it can have: 1 for 0, 65535 for more.
pub proof fn law_nearest_possible_size(cells: u32, fitting: u16)
    requires
        call_ensures(clamp_cells, (cells,), fitting),
    ensures
        1 <= cells <= 65535 ==> fitting == cells,
        cells == 0 ==> fitting == 1,
        cells > 65535 ==> fitting == 65535,
{
}

/// A terminal has the columns and rows that were asked for, neither swapped nor
/// changed, and no size in pixels.
pub proof fn law_size_in_cells(cols: u16, rows: u16, size: PtySize)
    requires
        call_ensures(pty_size, (cols, rows), size),
    ensures
        size.cols == cols,
        size.rows == rows,
        size.pixel_width == 0,
        size.pixel_height == 0,
{
}

} // verus!
