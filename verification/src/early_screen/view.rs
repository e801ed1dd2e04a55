//! Drawing text cells into a linear surface.

use vstd::prelude::*;
use vstd::arithmetic::div_mod::{lemma_fundamental_div_mod, lemma_fundamental_div_mod_converse};
use crate::bootfb::{copy_into, splice};
use crate::console_font::{cell_row, glyph, glyph_row, has_glyph, pixel_lit, GLYPH_HEIGHT,
    GLYPH_WIDTH};
use crate::early_screen::rows::MAX_ROWS;
use crate::scanout::PixelLayout;

verus! {

/// Columns of text one frame may address, for the same reason as [`MAX_ROWS`].
pub const MAX_COLS: usize = 512;

/// Geometry and pixel encoding of one linear text surface.
///
/// This is the whole of what the renderer knows about a display, which is what
/// lets the identical code draw into any byte slice.
#[derive(Clone, Copy, Debug)]
pub struct TextView {
    pub width: u32,
    pub height: u32,
    /// Bytes between the starts of two consecutive scan lines, as the boot
    /// loader reported it.  Never recomputed from the visible width: a firmware
    /// surface pads its scan lines, and a caller which assumed otherwise would
    /// shear the image.
    pub pitch: u32,
    /// Bytes addressable from the first pixel.
    pub len: usize,
    pub layout: PixelLayout,
}

pub open spec fn min(a: int, b: int) -> int {
    if a <= b {
        a
    } else {
        b
    }
}

impl TextView {
    /// Text columns the surface has.
    pub open spec fn col_count(self) -> int {
        min(self.width as int / 8, MAX_COLS as int)
    }

    /// Text rows the surface has.
    pub open spec fn row_count(self) -> int {
        min(self.height as int / 16, MAX_ROWS as int)
    }

    /// Byte offset of the pixel `(x, y)`, inside the surface or not.
    pub open spec fn offset(self, x: int, y: int) -> int {
        y * self.pitch + x * self.layout.depth()
    }

    /// Whether the pixel `(x, y)` lies inside the surface.
    pub open spec fn contains(self, x: int, y: int) -> bool {
        &&& 0 <= x < self.width
        &&& 0 <= y < self.height
        &&& self.offset(x, y) + self.layout.depth() <= self.len
    }

    /// The surface after `pattern` was laid over the pixel `(x, y)`.
    pub open spec fn put(self, surface: Seq<u8>, x: int, y: int, pattern: Seq<u8>) -> Seq<u8> {
        if self.contains(x, y) && self.offset(x, y) + pattern.len() <= surface.len() {
            splice(surface, self.offset(x, y), pattern)
        } else {
            surface
        }
    }

    /// Bytes of scan line `y` that a surface of `size` bytes holds.
    pub open spec fn line_len(self, size: int, y: int) -> int {
        min(self.pitch as int, size - y * self.pitch)
    }

    /// Whether a fill of the scan lines `first..end` writes byte `at` of a
    /// surface of `size` bytes: it writes every byte of a line, padding included,
    /// also where the padding holds no whole number of pixels.
    pub open spec fn fills(self, size: int, first: int, end: int, at: int) -> bool {
        let y = at / self.pitch as int;
        &&& self.layout.encodable()
        &&& self.pitch > 0
        &&& first <= y < min(end, self.height as int)
        &&& at % (self.pitch as int) < self.line_len(size, y)
    }

    /// The surface after the scan lines `first..end` were filled with `color`: the
    /// pixel is repeated along each line, and cut off where the line ends.
    pub open spec fn filled(self, surface: Seq<u8>, first: int, end: int, color: u32) -> Seq<u8> {
        Seq::new(
            surface.len(),
            |at: int|
                if self.fills(surface.len() as int, first, end, at) {
                    self.layout.pattern(color)[(at % self.pitch as int) % self.layout.depth()]
                } else {
                    surface[at]
                },
        )
    }

    /// The colour of pixel `(dx, dy)` of the cell for `byte`.
    pub open spec fn cell_color(byte: u8, dx: int, dy: int, fg: u32, bg: u32) -> u32 {
        if pixel_lit(cell_row(byte, dy), dx as u8) {
            fg
        } else {
            bg
        }
    }

    /// The surface after the first `count` pixels of a cell were drawn, from left
    /// to right and from top to bottom.
    pub open spec fn cell_pixels(
        self,
        surface: Seq<u8>,
        col: int,
        row: int,
        byte: u8,
        fg: u32,
        bg: u32,
        count: nat,
    ) -> Seq<u8>
        decreases count,
    {
        if count == 0 {
            surface
        } else {
            let dx = (count - 1) % 8;
            let dy = (count - 1) / 8;
            self.put(
                self.cell_pixels(surface, col, row, byte, fg, bg, (count - 1) as nat),
                col * 8 + dx,
                row * 16 + dy,
                self.layout.pattern(Self::cell_color(byte, dx, dy, fg, bg)),
            )
        }
    }

    /// The surface after one character cell was drawn.
    pub open spec fn cell_drawn(
        self,
        surface: Seq<u8>,
        col: int,
        row: int,
        byte: u8,
        fg: u32,
        bg: u32,
    ) -> Seq<u8> {
        if self.layout.encodable() {
            self.cell_pixels(surface, col, row, byte, fg, bg, 128)
        } else {
            surface
        }
    }

    /// The surface after the first `count` characters of `text` were drawn into
    /// one scan line of cells.
    pub open spec fn row_cells(
        self,
        surface: Seq<u8>,
        row: int,
        text: Seq<u8>,
        fg: u32,
        bg: u32,
        count: nat,
    ) -> Seq<u8>
        decreases count,
    {
        if count == 0 {
            surface
        } else {
            self.cell_drawn(
                self.row_cells(surface, row, text, fg, bg, (count - 1) as nat),
                count - 1,
                row,
                text[count - 1],
                fg,
                bg,
            )
        }
    }

    /// The surface after `text`, clipped to `cols` columns, was drawn into one
    /// scan line of cells.
    pub open spec fn row_drawn(
        self,
        surface: Seq<u8>,
        row: int,
        text: Seq<u8>,
        cols: int,
        fg: u32,
        bg: u32,
    ) -> Seq<u8> {
        self.row_cells(surface, row, text, fg, bg, min(cols, text.len() as int) as nat)
    }

    pub fn cols(&self) -> (cols: usize)
        ensures
            cols == self.col_count(),
    {
        let cols: usize = self.width as usize / GLYPH_WIDTH;
        if cols < MAX_COLS {
            cols
        } else {
            MAX_COLS
        }
    }

    pub fn rows(&self) -> (rows: usize)
        ensures
            rows == self.row_count(),
    {
        let rows: usize = self.height as usize / GLYPH_HEIGHT;
        if rows < MAX_ROWS {
            rows
        } else {
            MAX_ROWS
        }
    }

    /// The encoded bytes of one pixel, or `None` for a layout this renderer
    /// cannot write at a known depth.
    pub fn pattern(&self, color: u32) -> (pattern: Option<([u8; 4], usize)>)
        ensures
            pattern is Some <==> self.layout.encodable(),
            pattern matches Some((pixel, bytes)) ==> {
                &&& bytes == self.layout.depth()
                &&& pixel@.subrange(0, bytes as int) == self.layout.pattern(color)
                &&& forall|i: int| bytes <= i < 4 ==> #[trigger] pixel@[i] == 0
            },
    {
        let bytes: usize = self.layout.bytes_per_pixel() as usize;
        if bytes == 0 || bytes > 4 {
            return None;
        }
        let mut pixel: [u8; 4] = [0; 4];
        let written: usize = self.layout.encode_into(color, &mut pixel);
        assert(pixel@.subrange(0, bytes as int) =~= self.layout.pattern(color));
        if written == bytes {
            Some((pixel, bytes))
        } else {
            None
        }
    }

    /// Byte offset of the pixel `(x, y)`, if it lies inside the surface.
    pub fn offset_of(&self, x: usize, y: usize) -> (offset: Option<usize>)
        ensures
            offset is Some <==> self.contains(x as int, y as int),
            offset matches Some(at) ==> at == self.offset(x as int, y as int),
    {
        if x >= self.width as usize || y >= self.height as usize {
            return None;
        }
        let bytes: usize = self.layout.bytes_per_pixel() as usize;
        assert(0 <= y * self.pitch) by (nonlinear_arith)
            requires
                0 <= y,
                0 <= self.pitch,
        ;
        assert(0 <= x * bytes) by (nonlinear_arith)
            requires
                0 <= x,
                0 <= bytes,
        ;
        let line: usize = match y.checked_mul(self.pitch as usize) {
            Some(line) => line,
            None => {
                return None;
            },
        };
        let column: usize = match x.checked_mul(bytes) {
            Some(column) => column,
            None => {
                return None;
            },
        };
        let offset: usize = match line.checked_add(column) {
            Some(offset) => offset,
            None => {
                return None;
            },
        };
        match offset.checked_add(bytes) {
            Some(end) => if end <= self.len {
                Some(offset)
            } else {
                None
            },
            None => None,
        }
    }

    /// Lay the bytes of one pixel over `(x, y)`, or do nothing where the pixel
    /// is not inside the surface.
    pub fn put_pattern(&self, dst: &mut [u8], x: usize, y: usize, pattern: &[u8])
        ensures
            final(dst)@ == self.put(old(dst)@, x as int, y as int, pattern@),
    {
        let offset: usize = match self.offset_of(x, y) {
            Some(offset) => offset,
            None => {
                return ;
            },
        };
        let count: usize = pattern.len();
        if offset > dst.len() || dst.len() - offset < count {
            return ;
        }
        copy_into(dst, offset, pattern);
    }

    /// Fill whole scan lines in `first..end` with `color`.
    ///
    /// The full stride is filled, padding included, so that no byte of the
    /// aperture -- including one the firmware's own splash left outside the
    /// visible width -- survives a repaint.  A stride which is no whole number of
    /// pixels ends in the leading bytes of one.
    pub fn fill_rows(&self, dst: &mut [u8], first: usize, end: usize, color: u32)
        ensures
            final(dst)@ == self.filled(old(dst)@, first as int, end as int, color),
    {
        let (pixel, bytes) = match self.pattern(color) {
            Some(pattern) => pattern,
            None => {
                assert(dst@ =~= self.filled(old(dst)@, first as int, end as int, color));
                return ;
            },
        };
        let stride: usize = self.pitch as usize;
        let size: usize = dst.len();
        let last: usize = if end < self.height as usize {
            end
        } else {
            self.height as usize
        };
        if stride == 0 || first >= last {
            assert(dst@ =~= self.filled(old(dst)@, first as int, end as int, color));
            return ;
        }
        let ghost depth = self.layout.depth();
        let mut y: usize = first;
        while y < last
            invariant
                first <= y <= last,
                last == min(end as int, self.height as int),
                stride == self.pitch,
                stride > 0,
                bytes == depth == self.layout.depth(),
                self.layout.encodable(),
                pixel@.subrange(0, bytes as int) == self.layout.pattern(color),
                size == dst@.len() == old(dst)@.len(),
                forall|at: int|
                    0 <= at < size ==> #[trigger] dst@[at] == (if self.fills(
                        size as int,
                        first as int,
                        y as int,
                        at,
                    ) {
                        self.layout.pattern(color)[(at % self.pitch as int) % depth]
                    } else {
                        old(dst)@[at]
                    }),
            decreases last - y,
        {
            let start: usize = match y.checked_mul(stride) {
                Some(start) => start,
                None => {
                    proof {
                        self.nothing_below(old(dst)@, dst@, first as int, y as int, end as int, color);
                    }
                    return ;
                },
            };
            if start >= size {
                proof {
                    self.nothing_below(old(dst)@, dst@, first as int, y as int, end as int, color);
                }
                return ;
            }
            let line: usize = if size - start < stride {
                size - start
            } else {
                stride
            };
            let ghost before = dst@;
            let mut column: usize = 0;
            while column < line
                invariant
                    column <= line,
                    start + line <= size == dst@.len() == before.len(),
                    bytes == depth == self.layout.depth(),
                    1 <= bytes <= 4,
                    pixel@.subrange(0, bytes as int) == self.layout.pattern(color),
                    forall|at: int|
                        0 <= at < size ==> #[trigger] dst@[at] == (if start <= at < start + column {
                            self.layout.pattern(color)[(at - start) % depth]
                        } else {
                            before[at]
                        }),
                decreases line - column,
            {
                assert(pixel@.subrange(0, bytes as int)[(column % bytes) as int] == pixel@[(column
                    % bytes) as int]);
                dst[start + column] = pixel[column % bytes];
                column = column + 1;
            }
            proof {
                assert forall|at: int| 0 <= at < size implies #[trigger] dst@[at] == (if self.fills(
                    size as int,
                    first as int,
                    y as int + 1,
                    at,
                ) {
                    self.layout.pattern(color)[(at % self.pitch as int) % depth]
                } else {
                    old(dst)@[at]
                }) by {
                    self.line_of(at, y as int);
                }
            }
            y = y + 1;
        }
        assert(dst@ =~= self.filled(old(dst)@, first as int, end as int, color)) by {
            assert forall|at: int| 0 <= at < size implies self.fills(
                size as int,
                first as int,
                last as int,
                at,
            ) == #[trigger] self.fills(size as int, first as int, end as int, at) by {}
        }
    }

    /// Which scan line a byte belongs to.
    proof fn line_of(self, at: int, y: int)
        requires
            self.pitch > 0,
            0 <= at,
            0 <= y,
        ensures
            (y * self.pitch <= at < y * self.pitch + self.pitch) <==> at / (self.pitch as int) == y,
            at / self.pitch as int == y ==> at % self.pitch as int == at - y * self.pitch,
            at / self.pitch as int >= 0,
    {
        let pitch = self.pitch as int;
        lemma_fundamental_div_mod(at, pitch);
        let q = at / pitch;
        let r = at % pitch;
        assert(pitch * q == q * pitch) by (nonlinear_arith);
        assert(q >= 0) by (nonlinear_arith)
            requires
                q == at / pitch,
                at >= 0,
                pitch > 0,
        ;
        if y * pitch <= at < y * pitch + pitch {
            assert(at - y * pitch >= 0);
            assert(at == y * pitch + (at - y * pitch));
            lemma_fundamental_div_mod_converse(at, pitch, y, at - y * pitch);
        }
    }

    /// Scan lines that start past the end of a surface hold none of its bytes.
    proof fn nothing_below(
        self,
        before: Seq<u8>,
        after: Seq<u8>,
        first: int,
        y: int,
        end: int,
        color: u32,
    )
        requires
            self.pitch > 0,
            self.layout.encodable(),
            0 <= first <= y,
            y < min(end, self.height as int),
            y * self.pitch >= before.len(),
            after.len() == before.len(),
            forall|at: int|
                0 <= at < before.len() ==> #[trigger] after[at] == (if self.fills(
                    before.len() as int,
                    first,
                    y,
                    at,
                ) {
                    self.layout.pattern(color)[(at % self.pitch as int) % self.layout.depth()]
                } else {
                    before[at]
                }),
        ensures
            after == self.filled(before, first, end, color),
    {
        assert forall|at: int| 0 <= at < before.len() implies #[trigger] after[at] == self.filled(
            before,
            first,
            end,
            color,
        )[at] by {
            let pitch = self.pitch as int;
            let q = at / pitch;
            self.line_of(at, q);
            assert(q < y) by (nonlinear_arith)
                requires
                    q * pitch <= at,
                    at < y * pitch,
                    pitch > 0,
            ;
        }
        assert(after =~= self.filled(before, first, end, color));
    }

    /// Draw one character cell.
    ///
    /// A byte with no glyph is drawn blank rather than as a substitute: the log
    /// carries control bytes, UTF-8 continuation bytes and bytes outside the
    /// font's range, and a screen of replacement boxes would bury the text around
    /// them.
    pub fn draw_cell(&self, dst: &mut [u8], col: usize, row: usize, byte: u8, fg: u32, bg: u32)
        requires
            col * 8 + 8 <= usize::MAX,
            row * 16 + 16 <= usize::MAX,
        ensures
            final(dst)@ == self.cell_drawn(old(dst)@, col as int, row as int, byte, fg, bg),
    {
        let (foreground, bytes) = match self.pattern(fg) {
            Some(pattern) => pattern,
            None => {
                return ;
            },
        };
        let (background, _) = match self.pattern(bg) {
            Some(pattern) => pattern,
            None => {
                return ;
            },
        };
        let bits = glyph(byte);
        let x0: usize = col * GLYPH_WIDTH;
        let y0: usize = row * GLYPH_HEIGHT;
        let mut dy: usize = 0;
        while dy < GLYPH_HEIGHT
            invariant
                dy <= 16,
                x0 == col * 8,
                y0 == row * 16,
                x0 + 8 <= usize::MAX,
                y0 + 16 <= usize::MAX,
                bytes == self.layout.depth() <= 4,
                foreground@.subrange(0, bytes as int) == self.layout.pattern(fg),
                background@.subrange(0, bytes as int) == self.layout.pattern(bg),
                bits is Some <==> has_glyph(byte),
                bits matches Some(rows) ==> forall|r: int|
                    0 <= r < 16 ==> #[trigger] rows@[r] == glyph_row(byte, r),
                dst@ == self.cell_pixels(
                    old(dst)@,
                    col as int,
                    row as int,
                    byte,
                    fg,
                    bg,
                    (dy * 8) as nat,
                ),
            decreases 16 - dy,
        {
            let line: u8 = match &bits {
                Some(rows) => rows[dy],
                None => 0,
            };
            assert(line == cell_row(byte, dy as int));
            let mut dx: usize = 0;
            while dx < GLYPH_WIDTH
                invariant
                    dx <= 8,
                    dy < 16,
                    x0 == col * 8,
                    y0 == row * 16,
                    x0 + 8 <= usize::MAX,
                    y0 + 16 <= usize::MAX,
                    bytes == self.layout.depth() <= 4,
                    foreground@.subrange(0, bytes as int) == self.layout.pattern(fg),
                    background@.subrange(0, bytes as int) == self.layout.pattern(bg),
                    line == cell_row(byte, dy as int),
                    dst@ == self.cell_pixels(
                        old(dst)@,
                        col as int,
                        row as int,
                        byte,
                        fg,
                        bg,
                        (dy * 8 + dx) as nat,
                    ),
                decreases 8 - dx,
            {
                if line & (0x80u8 >> (dx as u8)) != 0 {
                    self.put_pattern(dst, x0 + dx, y0 + dy, &foreground[0..bytes]);
                } else {
                    self.put_pattern(dst, x0 + dx, y0 + dy, &background[0..bytes]);
                }
                proof {
                    let count = dy * 8 + dx + 1;
                    assert((count - 1) % 8 == dx as int);
                    assert((count - 1) / 8 == dy as int);
                }
                dx = dx + 1;
            }
            dy = dy + 1;
        }
    }

    /// Draw `text` into one scan line of cells, clipping anything that does not
    /// fit.
    pub fn draw_row(
        &self,
        dst: &mut [u8],
        row: usize,
        text: &[u8],
        cols: usize,
        fg: u32,
        bg: u32,
    )
        requires
            cols * 8 + 8 <= usize::MAX,
            row * 16 + 16 <= usize::MAX,
        ensures
            final(dst)@ == self.row_drawn(old(dst)@, row as int, text@, cols as int, fg, bg),
    {
        let count: usize = if cols < text.len() {
            cols
        } else {
            text.len()
        };
        let mut col: usize = 0;
        while col < count
            invariant
                col <= count,
                count <= cols,
                count <= text@.len(),
                cols * 8 + 8 <= usize::MAX,
                row * 16 + 16 <= usize::MAX,
                dst@ == self.row_cells(old(dst)@, row as int, text@, fg, bg, col as nat),
            decreases count - col,
        {
            self.draw_cell(dst, col, row, text[col], fg, bg);
            col = col + 1;
        }
    }
}

} // verus!
