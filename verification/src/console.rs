//! Framebuffer text console, modelled as its character grid.
//!
//! The grid is a ring: `offset` rotates a row-major character buffer so a
//! scroll costs one row clear instead of moving every row. Writes interpret
//! `\n` as newline (scrolling on the last row) and `\x08` as backspace;
//! any other byte lands at the cursor. Glyph rasterisation to the pixel
//! framebuffer is the embedder's concern and out of scope here.

use vstd::prelude::*;

verus! {

/// Backspace byte.
pub const BS: u8 = 8;

/// Newline byte.
pub const NL: u8 = 10;

/// Mathematical state of the console grid.
pub struct ConsoleView {
    pub chars: Seq<u8>,
    pub row: int,
    pub col: int,
    pub rows: int,
    pub cols: int,
    pub offset: int,
}

impl ConsoleView {
    pub open spec fn wf(self) -> bool {
        &&& 0 < self.rows
        &&& 0 < self.cols
        &&& self.rows * self.cols <= 0x1000_0000
        &&& self.chars.len() == self.rows * self.cols
        &&& 0 <= self.row < self.rows
        &&& 0 <= self.col < self.cols
        &&& 0 <= self.offset < self.rows * self.cols
    }

    /// Ring index of grid cell (r, c).
    pub open spec fn cell(self, r: int, c: int) -> int {
        (r * self.cols + c + self.offset) % (self.rows * self.cols)
    }

    /// The character shown at grid cell (r, c).
    pub open spec fn char_at(self, r: int, c: int) -> u8 {
        self.chars[self.cell(r, c)]
    }

    /// The grid with cell (r, c) set to `b`.
    pub open spec fn with_char(self, r: int, c: int, b: u8) -> ConsoleView {
        ConsoleView { chars: self.chars.update(self.cell(r, c), b), ..self }
    }

    /// Clearing columns `0..x` of the last row to spaces.
    pub open spec fn clear_last_row(self, x: int) -> ConsoleView
        decreases x,
    {
        if x <= 0 {
            self
        } else {
            self.clear_last_row(x - 1).with_char(self.rows - 1, x - 1, 32)
        }
    }

    /// A line feed: move down, or on the last row rotate the ring one row
    /// and clear what becomes the new last row; the cursor returns to
    /// column 0 either way.
    pub open spec fn newline(self) -> ConsoleView {
        if self.row >= self.rows - 1 {
            let scrolled = ConsoleView {
                offset: (self.offset + self.cols) % (self.rows * self.cols),
                col: 0,
                ..self
            };
            scrolled.clear_last_row(self.cols)
        } else {
            ConsoleView { row: self.row + 1, col: 0, ..self }
        }
    }

    /// One byte of output. Backspace at column 0 is ignored.
    pub open spec fn put(self, b: u8) -> ConsoleView {
        if b == BS {
            if self.col > 0 {
                self.with_char(self.row, self.col - 1, 32).move_col(self.col - 1)
            } else {
                self
            }
        } else if b == NL {
            self.newline()
        } else {
            let written = self.with_char(self.row, self.col, b);
            if self.col == self.cols - 1 {
                written.newline()
            } else {
                written.move_col(self.col + 1)
            }
        }
    }

    pub open spec fn move_col(self, c: int) -> ConsoleView {
        ConsoleView { col: c, ..self }
    }

    /// A whole buffer of output, first byte first.
    pub open spec fn put_seq(self, buf: Seq<u8>) -> ConsoleView
        decreases buf.len(),
    {
        if buf.len() == 0 {
            self
        } else {
            self.put(buf[0]).put_seq(buf.drop_first())
        }
    }
}

proof fn lemma_clear_last_row_wf(v: ConsoleView, x: int)
    requires
        v.wf(),
        x <= v.cols,
    ensures
        v.clear_last_row(x).wf(),
        v.clear_last_row(x).rows == v.rows,
        v.clear_last_row(x).cols == v.cols,
        v.clear_last_row(x).row == v.row,
        v.clear_last_row(x).col == v.col,
        v.clear_last_row(x).offset == v.offset,
    decreases x,
{
    if x > 0 {
        lemma_clear_last_row_wf(v, x - 1);
        lemma_cell_in_range(v.clear_last_row(x - 1), v.rows - 1, x - 1);
    }
}

proof fn lemma_cell_in_range(v: ConsoleView, r: int, c: int)
    requires
        v.wf(),
        0 <= r < v.rows,
        0 <= c < v.cols,
    ensures
        0 <= v.cell(r, c) < v.rows * v.cols,
{
    assert(v.rows * v.cols > 0) by (nonlinear_arith)
        requires v.rows > 0, v.cols > 0;
    let n = v.rows * v.cols;
    assert(r * v.cols + c + v.offset >= 0) by (nonlinear_arith)
        requires r >= 0, c >= 0, v.offset >= 0, v.cols > 0;
    vstd::arithmetic::div_mod::lemma_mod_bound(r * v.cols + c + v.offset, n);
}

proof fn lemma_put_wf(v: ConsoleView, b: u8)
    requires
        v.wf(),
    ensures
        v.put(b).wf(),
        v.put(b).rows == v.rows,
        v.put(b).cols == v.cols,
{
    assert(v.rows * v.cols > 0) by (nonlinear_arith)
        requires v.rows > 0, v.cols > 0;
    if b == BS {
        if v.col > 0 {
            lemma_cell_in_range(v, v.row, v.col - 1);
        }
    } else if b == NL {
        lemma_newline_wf(v);
    } else {
        lemma_cell_in_range(v, v.row, v.col);
        let written = v.with_char(v.row, v.col, b);
        if v.col == v.cols - 1 {
            lemma_newline_wf(written);
        }
    }
}

proof fn lemma_newline_wf(v: ConsoleView)
    requires
        v.wf(),
    ensures
        v.newline().wf(),
        v.newline().rows == v.rows,
        v.newline().cols == v.cols,
        v.newline().col == 0,
{
    assert(v.rows * v.cols > 0) by (nonlinear_arith)
        requires v.rows > 0, v.cols > 0;
    let n = v.rows * v.cols;
    if v.row >= v.rows - 1 {
        vstd::arithmetic::div_mod::lemma_mod_bound(v.offset + v.cols, n);
        let scrolled = ConsoleView {
            offset: (v.offset + v.cols) % n,
            col: 0,
            ..v
        };
        lemma_clear_last_row_wf(scrolled, v.cols);
    }
}

/// The console: a character grid with a cursor. The embedder renders the
/// grid to the pixel framebuffer.
pub struct Console {
    characters: Vec<u8>,
    row: usize,
    col: usize,
    rows: usize,
    cols: usize,
    offset: usize,
}

impl View for Console {
    type V = ConsoleView;

    closed spec fn view(&self) -> ConsoleView {
        ConsoleView {
            chars: self.characters@,
            row: self.row as int,
            col: self.col as int,
            rows: self.rows as int,
            cols: self.cols as int,
            offset: self.offset as int,
        }
    }
}

impl Console {
    /// A blank console of `rows` by `cols` cells, cursor at the top left.
    pub fn new(rows: usize, cols: usize) -> (r: Console)
        requires
            0 < rows,
            0 < cols,
            rows * cols <= 0x1000_0000,
        ensures
            r@.wf(),
            r@.rows == rows,
            r@.cols == cols,
            r@.row == 0,
            r@.col == 0,
            r@.offset == 0,
            forall|i: int| 0 <= i < rows * cols ==> r@.chars[i] == 32u8,
    {
        proof {
            assert(rows * cols > 0) by (nonlinear_arith)
                requires rows > 0, cols > 0;
        }
        let n: usize = rows * cols;
        let mut characters: Vec<u8> = Vec::new();
        let mut i: usize = 0;
        while i < n
            invariant
                0 <= i <= n,
                characters@.len() == i,
                forall|j: int| 0 <= j < i ==> characters@[j] == 32u8,
            decreases n - i,
        {
            characters.push(32u8);
            i = i + 1;
        }
        Console { characters, row: 0, col: 0, rows, cols, offset: 0 }
    }

    /// The character shown at (r, c), for embedders and tests.
    pub fn char_at(&self, r: usize, c: usize) -> (b: u8)
        requires
            self@.wf(),
            r < self@.rows,
            c < self@.cols,
        ensures
            b == self@.char_at(r as int, c as int),
    {
        proof {
            lemma_cell_in_range(self@, r as int, c as int);
            assert(r * self@.cols + c < self@.rows * self@.cols) by (nonlinear_arith)
                requires 0 <= r < self@.rows, 0 <= c < self@.cols, self@.cols > 0;
        }
        let n: usize = self.rows * self.cols;
        let idx: usize = (r * self.cols + c + self.offset) % n;
        self.characters[idx]
    }

    pub fn rows(&self) -> (r: usize)
        ensures
            r == self@.rows,
    {
        self.rows
    }

    pub fn cols(&self) -> (r: usize)
        ensures
            r == self@.cols,
    {
        self.cols
    }

    pub fn cursor(&self) -> (rc: (usize, usize))
        ensures
            rc.0 == self@.row,
            rc.1 == self@.col,
    {
        (self.row, self.col)
    }

    fn set_cell(&mut self, r: usize, c: usize, b: u8)
        requires
            old(self)@.wf(),
            r < old(self)@.rows,
            c < old(self)@.cols,
        ensures
            final(self)@ == old(self)@.with_char(r as int, c as int, b),
            final(self)@.wf(),
    {
        proof {
            lemma_cell_in_range(self@, r as int, c as int);
            assert(r * self@.cols + c < self@.rows * self@.cols) by (nonlinear_arith)
                requires 0 <= r < self@.rows, 0 <= c < self@.cols, self@.cols > 0;
        }
        let n: usize = self.rows * self.cols;
        let idx: usize = (r * self.cols + c + self.offset) % n;
        self.characters.set(idx, b);
    }

    fn newline(&mut self)
        requires
            old(self)@.wf(),
        ensures
            final(self)@ == old(self)@.newline(),
            final(self)@.wf(),
    {
        proof {
            lemma_newline_wf(self@);
        }
        let n: usize = self.rows * self.cols;
        if self.row >= self.rows - 1 {
            proof {
                assert(self@.cols <= self@.rows * self@.cols) by (nonlinear_arith)
                    requires self@.rows > 0, self@.cols > 0;
            }
            self.offset = (self.offset + self.cols) % n;
            self.col = 0;
            let ghost scrolled = self@;
            // Clear what the rotation made the new last row.
            let mut x: usize = 0;
            while x < self.cols
                invariant
                    scrolled.wf(),
                    0 <= x <= scrolled.cols,
                    self@ == scrolled.clear_last_row(x as int),
                    self@.wf(),
                    self@.rows == scrolled.rows,
                    self@.cols == scrolled.cols,
                    self@.row == scrolled.row,
                    self@.col == scrolled.col,
                    self@.offset == scrolled.offset,
                    self.rows == scrolled.rows,
                    self.cols == scrolled.cols,
                decreases scrolled.cols - x,
            {
                proof {
                    lemma_clear_last_row_wf(scrolled, x as int);
                }
                self.set_cell(self.rows - 1, x, 32u8);
                x = x + 1;
            }
        } else {
            self.row = self.row + 1;
            self.col = 0;
        }
    }

    /// Writes the buffer to the grid and reports how many bytes it took,
    /// always all of them.
    pub fn write(&mut self, buf: &[u8]) -> (n: usize)
        requires
            old(self)@.wf(),
        ensures
            final(self)@ == old(self)@.put_seq(buf@),
            final(self)@.wf(),
            n == buf@.len(),
    {
        let len: usize = buf.len();
        let mut i: usize = 0;
        proof {
            assert(buf@.skip(0) =~= buf@);
        }
        while i < len
            invariant
                len == buf@.len(),
                0 <= i <= len,
                self@.wf(),
                old(self)@.put_seq(buf@) == self@.put_seq(buf@.skip(i as int)),
            decreases len - i,
        {
            let b = buf[i];
            proof {
                assert(buf@.skip(i as int)[0] == b);
                assert(buf@.skip(i as int).drop_first() =~= buf@.skip(i + 1));
                lemma_put_wf(self@, b);
            }
            let ghost pre = self@;
            if b == BS {
                if self.col > 0 {
                    let c = self.col - 1;
                    self.set_cell(self.row, c, 32u8);
                    self.col = c;
                }
            } else if b == NL {
                self.newline();
            } else {
                let r = self.row;
                let c = self.col;
                self.set_cell(r, c, b);
                if c == self.cols - 1 {
                    self.newline();
                } else {
                    self.col = c + 1;
                }
            }
            proof {
                assert(self@ == pre.put(b));
            }
            i = i + 1;
        }
        proof {
            assert(buf@.skip(len as int) =~= Seq::<u8>::empty());
        }
        len
    }
}

} // verus!
