//! Which part of the text a terminal window shows: the window's size and the
//! scroll offsets that keep the cursor in view.
use vstd::prelude::*;

verus! {

/// Rows of the window that are not text: the status bar and the message bar.
pub const BAR_ROWS: usize = 2;

/// A window onto the text: its size in cells, and the first line and column shown.
pub struct Viewer {
    width: u16,
    height: u16,
    row_offset: usize,
    col_offset: usize,
}

impl Viewer {
    pub closed spec fn spec_width(&self) -> u16 {
        self.width
    }

    pub closed spec fn spec_height(&self) -> u16 {
        self.height
    }

    pub closed spec fn spec_row_offset(&self) -> usize {
        self.row_offset
    }

    pub closed spec fn spec_col_offset(&self) -> usize {
        self.col_offset
    }

    /// Number of rows that show text.
    pub open spec fn spec_text_height(&self) -> int {
        if self.spec_height() >= BAR_ROWS {
            self.spec_height() - BAR_ROWS
        } else {
            0
        }
    }

    /// A window of the given size, showing the text from its start.
    pub fn new(width: u16, height: u16) -> (v: Self)
        ensures
            v.spec_width() == width,
            v.spec_height() == height,
            v.spec_row_offset() == 0,
            v.spec_col_offset() == 0,
    {
        Viewer { width, height, row_offset: 0, col_offset: 0 }
    }

    /// Takes the window's new size; the offsets stay.
    pub fn resize(&mut self, width: u16, height: u16)
        ensures
            final(self).spec_width() == width,
            final(self).spec_height() == height,
            final(self).spec_row_offset() == old(self).spec_row_offset(),
            final(self).spec_col_offset() == old(self).spec_col_offset(),
    {
        self.width = width;
        self.height = height;
    }

    pub fn width(&self) -> (r: u16)
        ensures
            r == self.spec_width(),
    {
        self.width
    }

    pub fn height(&self) -> (r: u16)
        ensures
            r == self.spec_height(),
    {
        self.height
    }

    pub fn row_offset(&self) -> (r: usize)
        ensures
            r == self.spec_row_offset(),
    {
        self.row_offset
    }

    pub fn col_offset(&self) -> (r: usize)
        ensures
            r == self.spec_col_offset(),
    {
        self.col_offset
    }

    /// Number of rows that show text: the height less the two bars.
    pub fn text_height(&self) -> (r: usize)
        ensures
            r == self.spec_text_height(),
    {
        (self.height as usize).saturating_sub(BAR_ROWS)
    }

    /// Scrolls as little as needed for the cursor, at line `cursor_row` and column
    /// `cursor_col`, to be in view: an offset past the cursor moves back to it, and
    /// one that leaves the cursor below or right of the window moves forward so
    /// that the cursor is on the last row or column.
    pub fn scroll_to(&mut self, cursor_row: usize, cursor_col: usize)
        requires
            cursor_row < usize::MAX,
            cursor_col < usize::MAX,
        ensures
            final(self).spec_width() == old(self).spec_width(),
            final(self).spec_height() == old(self).spec_height(),
            ({
                let th = old(self).spec_text_height();
                let r0 = if cursor_row < old(self).spec_row_offset() {
                    cursor_row as int
                } else {
                    old(self).spec_row_offset() as int
                };
                final(self).spec_row_offset() == if cursor_row >= r0 + th {
                    cursor_row - th + 1
                } else {
                    r0
                }
            }),
            ({
                let tw = old(self).spec_width() as int;
                let c0 = if cursor_col < old(self).spec_col_offset() {
                    cursor_col as int
                } else {
                    old(self).spec_col_offset() as int
                };
                final(self).spec_col_offset() == if cursor_col >= c0 + tw {
                    cursor_col - tw + 1
                } else {
                    c0
                }
            }),
            old(self).spec_text_height() > 0 ==> final(self).spec_row_offset() <= cursor_row
                < final(self).spec_row_offset() + old(self).spec_text_height(),
            old(self).spec_width() > 0 ==> final(self).spec_col_offset() <= cursor_col
                < final(self).spec_col_offset() + old(self).spec_width(),
    {
        let text_height = self.text_height();
        let text_width = self.width as usize;
        if cursor_row < self.row_offset {
            self.row_offset = cursor_row;
        }
        if cursor_row - self.row_offset >= text_height {
            self.row_offset = cursor_row - text_height + 1;
        }
        if cursor_col < self.col_offset {
            self.col_offset = cursor_col;
        }
        if cursor_col - self.col_offset >= text_width {
            self.col_offset = cursor_col - text_width + 1;
        }
    }
}

} // verus!
