//! What a painted frame shows, pixel by pixel.
//!
//! [`crate::early_screen::painted`] states a frame as the sequence of writes that
//! compose it.  On a surface whose scan lines hold their pixels, the laws below
//! say what is on the screen in the end.

use vstd::prelude::*;
use vstd::arithmetic::div_mod::{lemma_fundamental_div_mod, lemma_fundamental_div_mod_converse};
use crate::bootfb::splice;
use crate::console_font::{law_a_cell_is_its_table_word, GLYPHS};
use crate::early_screen::rows::RowRef;
use crate::early_screen::view::{min, TextView};
use crate::early_screen::{barred, body_rows, dirty_lines, has_cells, law_kept_rows_lie_in_the_text,
    message_rows, painted, pinned_rows, row_text, rows_drawn, tail_rows, trace_rows, used_rows,
    Content, BACKGROUND, LOG_TEXT, MESSAGE_TEXT, STATUS_TEXT, TRACE_TEXT};

verus! {

impl TextView {
    /// The surface's scan lines hold their pixels, and a slice of `size` bytes
    /// holds its scan lines.
    pub open spec fn linear(self, size: int) -> bool {
        &&& self.layout.encodable()
        &&& self.width * self.layout.depth() <= self.pitch
        &&& self.height * self.pitch <= self.len <= size
    }

    /// The bytes of the pixel `(x, y)`.
    pub open spec fn pixel(self, surface: Seq<u8>, x: int, y: int) -> Seq<u8> {
        surface.subrange(self.offset(x, y), self.offset(x, y) + self.layout.depth())
    }
}

/// The text of one row of a frame, with its ink and its ground.
pub open spec fn frame_line(view: TextView, content: Content, row: int) -> (Seq<u8>, u32, u32) {
    let message = message_rows(view, content);
    let trace = trace_rows(view, content);
    let tail = tail_rows(view, content);
    let pinned = pinned_rows(view, content);
    if row == 0 {
        (content.status@, STATUS_TEXT, content.bar())
    } else if row < 1 + message.len() {
        (row_text(content.message@, message[row - 1]), MESSAGE_TEXT, BACKGROUND)
    } else if row < 1 + pinned {
        (row_text(content.trace@, trace[row - 1 - message.len()]), TRACE_TEXT, BACKGROUND)
    } else if row < 1 + pinned + tail.len() {
        (row_text(content.tail@, tail[row - 1 - pinned]), LOG_TEXT, BACKGROUND)
    } else {
        (Seq::empty(), BACKGROUND, BACKGROUND)
    }
}

/// The colour that a text row, clipped to `cols` columns, gives the pixel
/// `(x, y)` of the screen: ink where the character's glyph has it.
pub open spec fn line_color(line: (Seq<u8>, u32, u32), cols: int, x: int, y: int) -> u32 {
    if x / 8 < min(cols, line.0.len() as int) {
        TextView::cell_color(line.0[x / 8], x % 8, y % 16, line.1, line.2)
    } else {
        line.2
    }
}

/// The colour that a frame gives the pixel `(x, y)`.
pub open spec fn frame_color(view: TextView, content: Content, x: int, y: int) -> u32 {
    line_color(frame_line(view, content, y / 16), view.col_count(), x, y)
}

/// A pixel of a linear surface lies inside its scan line, and the scan line
/// inside the surface.
proof fn pixel_in_line(view: TextView, size: int, x: int, y: int)
    requires
        view.linear(size),
        0 <= x < view.width,
        0 <= y < view.height,
    ensures
        0 <= y * view.pitch,
        0 <= x * view.layout.depth(),
        x * view.layout.depth() + view.layout.depth() <= view.pitch,
        y * view.pitch + view.pitch <= view.height * view.pitch,
        view.contains(x, y),
        view.offset(x, y) + view.layout.depth() <= size,
{
    let depth = view.layout.depth();
    let pitch = view.pitch as int;
    let height = view.height as int;
    let width = view.width as int;
    assert(0 <= y * pitch) by (nonlinear_arith)
        requires
            0 <= y,
            0 <= pitch,
    ;
    assert(0 <= x * depth) by (nonlinear_arith)
        requires
            0 <= x,
            0 <= depth,
    ;
    assert(x * depth + depth <= width * depth) by (nonlinear_arith)
        requires
            x + 1 <= width,
            0 <= depth,
    ;
    assert(y * pitch + pitch <= height * pitch) by (nonlinear_arith)
        requires
            y + 1 <= height,
            0 <= pitch,
    ;
}

/// Two different pixels of a linear surface do not overlap.
proof fn pixels_are_apart(view: TextView, size: int, x: int, y: int, u: int, v: int)
    requires
        view.linear(size),
        0 <= x < view.width,
        0 <= y < view.height,
        0 <= u < view.width,
        0 <= v < view.height,
        (x, y) != (u, v),
    ensures
        view.offset(x, y) + view.layout.depth() <= view.offset(u, v) || view.offset(u, v)
            + view.layout.depth() <= view.offset(x, y),
{
    let depth = view.layout.depth();
    let pitch = view.pitch as int;
    pixel_in_line(view, size, x, y);
    pixel_in_line(view, size, u, v);
    if y < v {
        assert(y * pitch + pitch <= v * pitch) by (nonlinear_arith)
            requires
                y + 1 <= v,
                0 <= pitch,
        ;
    } else if v < y {
        assert(v * pitch + pitch <= y * pitch) by (nonlinear_arith)
            requires
                v + 1 <= y,
                0 <= pitch,
        ;
    } else if x < u {
        assert(x * depth + depth <= u * depth) by (nonlinear_arith)
            requires
                x + 1 <= u,
                0 <= depth,
        ;
    } else {
        assert(u * depth + depth <= x * depth) by (nonlinear_arith)
            requires
                u + 1 <= x,
                0 <= depth,
        ;
    }
}

/// Writing one pixel of a linear surface changes that pixel and no other.
pub proof fn law_a_pixel_write_is_local(
    view: TextView,
    surface: Seq<u8>,
    x: int,
    y: int,
    pattern: Seq<u8>,
    u: int,
    v: int,
)
    requires
        view.linear(surface.len() as int),
        pattern.len() == view.layout.depth(),
        0 <= x < view.width,
        0 <= y < view.height,
        0 <= u < view.width,
        0 <= v < view.height,
    ensures
        view.put(surface, x, y, pattern).len() == surface.len(),
        view.pixel(view.put(surface, x, y, pattern), u, v) == (if (u, v) == (x, y) {
            pattern
        } else {
            view.pixel(surface, u, v)
        }),
{
    let size = surface.len() as int;
    pixel_in_line(view, size, x, y);
    pixel_in_line(view, size, u, v);
    let after = view.put(surface, x, y, pattern);
    assert(after == splice(surface, view.offset(x, y), pattern));
    if (u, v) == (x, y) {
        assert(view.pixel(after, u, v) =~= pattern);
    } else {
        pixels_are_apart(view, size, x, y, u, v);
        assert(view.pixel(after, u, v) =~= view.pixel(surface, u, v));
    }
}

/// No byte of a filled scan line survives: what the line holds afterwards is the
/// pixel repeated over its full stride, padding included, whatever was there.
pub proof fn law_a_fill_leaves_no_earlier_byte(
    view: TextView,
    surface: Seq<u8>,
    first: int,
    end: int,
    color: u32,
    at: int,
)
    requires
        view.layout.encodable(),
        view.pitch > 0,
        0 <= at < surface.len(),
        first <= at / view.pitch as int,
        at / (view.pitch as int) < end,
        at / (view.pitch as int) < view.height,
    ensures
        view.filled(surface, first, end, color)[at] == view.layout.pattern(color)[(at
            % view.pitch as int) % view.layout.depth()],
{
    let pitch = view.pitch as int;
    lemma_fundamental_div_mod(at, pitch);
    let y = at / pitch;
    assert(pitch * y == y * pitch) by (nonlinear_arith);
    assert(at % pitch < view.line_len(surface.len() as int, y));
}

/// A fill colours exactly the pixels of its scan lines.
pub proof fn law_a_fill_colours_its_lines(
    view: TextView,
    surface: Seq<u8>,
    first: int,
    end: int,
    color: u32,
    x: int,
    y: int,
)
    requires
        view.linear(surface.len() as int),
        0 <= first,
        0 <= x < view.width,
        0 <= y < view.height,
    ensures
        view.filled(surface, first, end, color).len() == surface.len(),
        view.pixel(view.filled(surface, first, end, color), x, y) == (if first <= y < end {
            view.layout.pattern(color)
        } else {
            view.pixel(surface, x, y)
        }),
{
    let size = surface.len() as int;
    let depth = view.layout.depth();
    let pitch = view.pitch as int;
    let after = view.filled(surface, first, end, color);
    pixel_in_line(view, size, x, y);
    let column = x * depth;
    assert forall|j: int| 0 <= j < depth implies #[trigger] after[view.offset(x, y) + j] == (if first
        <= y < end {
        view.layout.pattern(color)[j]
    } else {
        surface[view.offset(x, y) + j]
    }) by {
        let at = y * pitch + (column + j);
        lemma_fundamental_div_mod_converse(at, pitch, y, column + j);
        assert(column + j == depth * x + j) by (nonlinear_arith)
            requires
                column == x * depth,
        ;
        lemma_fundamental_div_mod_converse(column + j, depth, x, j);
        assert(view.line_len(size, y) == pitch);
    }
    let shown = view.pixel(after, x, y);
    assert forall|j: int| 0 <= j < depth implies #[trigger] shown[j] == (if first <= y < end {
        view.layout.pattern(color)[j]
    } else {
        view.pixel(surface, x, y)[j]
    }) by {
        assert(shown[j] == after[view.offset(x, y) + j]);
    }
    if first <= y < end {
        assert(shown =~= view.layout.pattern(color));
    } else {
        assert(shown =~= view.pixel(surface, x, y));
    }
}

proof fn cell_pixels_show(
    view: TextView,
    surface: Seq<u8>,
    col: int,
    row: int,
    byte: u8,
    fg: u32,
    bg: u32,
    count: nat,
    x: int,
    y: int,
)
    requires
        view.linear(surface.len() as int),
        0 <= col < view.col_count(),
        0 <= row < view.row_count(),
        count <= 128,
        0 <= x < view.width,
        0 <= y < view.height,
    ensures
        view.cell_pixels(surface, col, row, byte, fg, bg, count).len() == surface.len(),
        view.pixel(view.cell_pixels(surface, col, row, byte, fg, bg, count), x, y) == (if x / 8
            == col && y / 16 == row && (y % 16) * 8 + x % 8 < count {
            view.layout.pattern(TextView::cell_color(byte, x % 8, y % 16, fg, bg))
        } else {
            view.pixel(surface, x, y)
        }),
    decreases count,
{
    if count > 0 {
        let less = (count - 1) as nat;
        cell_pixels_show(view, surface, col, row, byte, fg, bg, less, x, y);
        let before = view.cell_pixels(surface, col, row, byte, fg, bg, less);
        let dx = less as int % 8;
        let dy = less as int / 8;
        let pattern = view.layout.pattern(TextView::cell_color(byte, dx, dy, fg, bg));
        law_a_pixel_write_is_local(view, before, col * 8 + dx, row * 16 + dy, pattern, x, y);
    }
}

/// A character cell shows its glyph in the ink on the ground, and drawing it
/// changes no pixel outside the cell.
pub proof fn law_a_cell_shows_its_glyph(
    view: TextView,
    surface: Seq<u8>,
    col: int,
    row: int,
    byte: u8,
    fg: u32,
    bg: u32,
    x: int,
    y: int,
)
    requires
        view.linear(surface.len() as int),
        0 <= col < view.col_count(),
        0 <= row < view.row_count(),
        0 <= x < view.width,
        0 <= y < view.height,
    ensures
        view.cell_drawn(surface, col, row, byte, fg, bg).len() == surface.len(),
        view.pixel(view.cell_drawn(surface, col, row, byte, fg, bg), x, y) == (if x / 8 == col && y
            / 16 == row {
            view.layout.pattern(TextView::cell_color(byte, x % 8, y % 16, fg, bg))
        } else {
            view.pixel(surface, x, y)
        }),
{
    cell_pixels_show(view, surface, col, row, byte, fg, bg, 128, x, y);
}

proof fn row_cells_show(
    view: TextView,
    surface: Seq<u8>,
    row: int,
    text: Seq<u8>,
    fg: u32,
    bg: u32,
    count: nat,
    x: int,
    y: int,
)
    requires
        view.linear(surface.len() as int),
        0 <= row < view.row_count(),
        count <= view.col_count(),
        count <= text.len(),
        0 <= x < view.width,
        0 <= y < view.height,
    ensures
        view.row_cells(surface, row, text, fg, bg, count).len() == surface.len(),
        view.pixel(view.row_cells(surface, row, text, fg, bg, count), x, y) == (if y / 16 == row && x
            / 8 < count {
            view.layout.pattern(TextView::cell_color(text[x / 8], x % 8, y % 16, fg, bg))
        } else {
            view.pixel(surface, x, y)
        }),
    decreases count,
{
    if count > 0 {
        let less = (count - 1) as nat;
        row_cells_show(view, surface, row, text, fg, bg, less, x, y);
        let before = view.row_cells(surface, row, text, fg, bg, less);
        law_a_cell_shows_its_glyph(view, before, less as int, row, text[less as int], fg, bg, x, y);
    }
}

proof fn row_drawn_shows(
    view: TextView,
    surface: Seq<u8>,
    row: int,
    text: Seq<u8>,
    fg: u32,
    bg: u32,
    x: int,
    y: int,
)
    requires
        view.linear(surface.len() as int),
        0 < view.col_count(),
        0 <= row < view.row_count(),
        0 <= x < view.width,
        0 <= y < view.height,
    ensures
        view.row_drawn(surface, row, text, view.col_count(), fg, bg).len() == surface.len(),
        view.pixel(view.row_drawn(surface, row, text, view.col_count(), fg, bg), x, y) == (if y / 16
            == row && x / 8 < min(view.col_count(), text.len() as int) {
            view.layout.pattern(TextView::cell_color(text[x / 8], x % 8, y % 16, fg, bg))
        } else {
            view.pixel(surface, x, y)
        }),
{
    let count = min(view.col_count(), text.len() as int) as nat;
    row_cells_show(view, surface, row, text, fg, bg, count, x, y);
}

proof fn rows_drawn_show(
    view: TextView,
    surface: Seq<u8>,
    first: int,
    text: Seq<u8>,
    rows: Seq<RowRef>,
    fg: u32,
    count: nat,
    x: int,
    y: int,
)
    requires
        view.linear(surface.len() as int),
        0 < view.col_count(),
        0 <= first,
        count <= rows.len(),
        first + count <= view.row_count(),
        0 <= x < view.width,
        0 <= y < view.height,
        forall|i: int|
            0 <= i < rows.len() ==> {
                let row = #[trigger] rows[i];
                row.start + row.len <= text.len()
            },
    ensures
        rows_drawn(view, surface, first, text, rows, fg, count).len() == surface.len(),
        view.pixel(rows_drawn(view, surface, first, text, rows, fg, count), x, y) == (if first <= y
            / 16 < first + count && x / 8 < min(
            view.col_count(),
            row_text(text, rows[y / 16 - first]).len() as int,
        ) {
            view.layout.pattern(
                TextView::cell_color(
                    row_text(text, rows[y / 16 - first])[x / 8],
                    x % 8,
                    y % 16,
                    fg,
                    BACKGROUND,
                ),
            )
        } else {
            view.pixel(surface, x, y)
        }),
    decreases count,
{
    if count > 0 {
        let less = (count - 1) as nat;
        rows_drawn_show(view, surface, first, text, rows, fg, less, x, y);
        let before = rows_drawn(view, surface, first, text, rows, fg, less);
        row_drawn_shows(
            view,
            before,
            first + less,
            row_text(text, rows[less as int]),
            fg,
            BACKGROUND,
            x,
            y,
        );
    }
}

proof fn barred_shows(
    view: TextView,
    surface: Seq<u8>,
    content: Content,
    previous: Option<usize>,
    x: int,
    y: int,
)
    requires
        view.linear(surface.len() as int),
        has_cells(view),
        0 <= x < view.width,
        0 <= y < view.height,
    ensures
        barred(view, surface, content, previous).len() == surface.len(),
        view.pixel(barred(view, surface, content, previous), x, y) == (if y < 16 {
            view.layout.pattern(
                line_color(
                    (content.status@, STATUS_TEXT, content.bar()),
                    view.col_count(),
                    x,
                    y,
                ),
            )
        } else if y < dirty_lines(view, content, previous) {
            view.layout.pattern(BACKGROUND)
        } else {
            view.pixel(surface, x, y)
        }),
{
    let dirty = dirty_lines(view, content, previous);
    let cleared = view.filled(surface, 0, dirty, BACKGROUND);
    law_a_fill_colours_its_lines(view, surface, 0, dirty, BACKGROUND, x, y);
    law_a_fill_colours_its_lines(view, cleared, 0, 16, content.bar(), x, y);
    let bar = view.filled(cleared, 0, 16, content.bar());
    row_drawn_shows(view, bar, 0, content.status@, STATUS_TEXT, content.bar(), x, y);
}

/// A painted frame shows, in every scan line that it clears, exactly its text:
/// the clipped status line on its bar, the message, the backtrace and the newest
/// log rows in their own colours, and background everywhere else.  Below the
/// cleared lines nothing changes, and the first frame clears every line.
pub proof fn law_a_frame_shows_its_content(
    view: TextView,
    surface: Seq<u8>,
    content: Content,
    previous: Option<usize>,
    x: int,
    y: int,
)
    requires
        view.linear(surface.len() as int),
        has_cells(view),
        0 <= x < view.width,
        0 <= y < view.height,
    ensures
        painted(view, surface, content, previous).len() == surface.len(),
        view.pixel(painted(view, surface, content, previous), x, y) == (if y < dirty_lines(
            view,
            content,
            previous,
        ) {
            view.layout.pattern(frame_color(view, content, x, y))
        } else {
            view.pixel(surface, x, y)
        }),
        previous is None ==> y < dirty_lines(view, content, previous),
{
    let cols = view.col_count();
    let message = message_rows(view, content);
    let trace = trace_rows(view, content);
    let tail = tail_rows(view, content);
    let pinned = pinned_rows(view, content);
    let budget = body_rows(view) - min(4, body_rows(view));
    law_kept_rows_lie_in_the_text(content.message@, cols, min(budget, 8), false);
    law_kept_rows_lie_in_the_text(content.trace@, cols, min(budget - message.len(), 6), false);
    law_kept_rows_lie_in_the_text(content.tail@, cols, body_rows(view) - pinned, true);
    assert(1 + pinned + tail.len() <= view.row_count());
    barred_shows(view, surface, content, previous, x, y);
    let base = barred(view, surface, content, previous);
    rows_drawn_show(view, base, 1, content.message@, message, MESSAGE_TEXT, message.len(), x, y);
    let second = rows_drawn(view, base, 1, content.message@, message, MESSAGE_TEXT, message.len());
    let trace_first = 1 + message.len() as int;
    rows_drawn_show(view, second, trace_first, content.trace@, trace, TRACE_TEXT, trace.len(), x, y);
    let third = rows_drawn(
        view,
        second,
        trace_first,
        content.trace@,
        trace,
        TRACE_TEXT,
        trace.len(),
    );
    rows_drawn_show(view, third, 1 + pinned, content.tail@, tail, LOG_TEXT, tail.len(), x, y);
    let row = y / 16;
    assert(used_rows(view, content) * 16 <= dirty_lines(view, content, previous));
    assert(row < used_rows(view, content) ==> y < dirty_lines(view, content, previous));
}

/// A cell shows its character as the font's table draws it: the ink where the table word of the
/// character has a pixel, which stands five to a row and two lines high behind a blank column and
/// under a blank line, and the ground everywhere else.
pub proof fn law_a_cell_is_drawn_from_the_table(byte: u8, dx: int, dy: int, fg: u32, bg: u32)
    requires
        0 <= dx < 8,
        0 <= dy < 16,
    ensures
        TextView::cell_color(byte, dx, dy, fg, bg) == (if 0x20 <= byte <= 0x7e && 1 <= dx <= 5 && 1
            <= dy <= 14 && (GLYPHS@[byte - 0x20] >> ((34 - 5 * ((dy - 1) / 2) - (dx - 1)) as u64)) % 2
            == 1 {
            fg
        } else {
            bg
        }),
{
    law_a_cell_is_its_table_word(byte, dx as u8, dy);
}

/// The status line is the top row in white on its bar, which is red for a fault and blue otherwise;
/// below it stand the message, the backtrace and the log, in this order, each in its own colour on
/// black, with no row between them.
pub proof fn law_a_frame_stacks_its_parts(view: TextView, content: Content, i: int)
    requires
        has_cells(view),
        0 <= i,
    ensures
        ({
            let message = message_rows(view, content);
            let trace = trace_rows(view, content);
            let tail = tail_rows(view, content);
            &&& frame_line(view, content, 0) == (
                content.status@,
                0x00ff_ffffu32,
                if content.alert {
                    0x00a0_0000u32
                } else {
                    0x0020_4060u32
                },
            )
            &&& i < message.len() ==> frame_line(view, content, 1 + i) == (
                row_text(content.message@, message[i]),
                0x00ff_9090u32,
                0u32,
            )
            &&& i < trace.len() ==> frame_line(view, content, 1 + message.len() + i) == (
                row_text(content.trace@, trace[i]),
                0x00b0_b0b0u32,
                0u32,
            )
            &&& i < tail.len() ==> frame_line(view, content, 1 + message.len() + trace.len() + i) == (
                row_text(content.tail@, tail[i]),
                0x00d0_d0d0u32,
                0u32,
            )
        }),
{
}

/// The rows of a frame are shared out so: the log keeps four rows of the body where it has that
/// many; of the others the message has up to eight and the backtrace up to six of what the message
/// leaves; and the log has all that is left.
pub proof fn law_rows_are_shared_out(view: TextView, content: Content)
    requires
        has_cells(view),
    ensures
        ({
            let body = view.row_count() - 1;
            let cols = view.col_count();
            let message = message_rows(view, content).len() as int;
            let trace = trace_rows(view, content).len() as int;
            let tail = tail_rows(view, content).len() as int;
            &&& message <= 8 && trace <= 6
            &&& message + trace + tail <= body
            &&& message + trace <= body - 4 || message + trace == 0
            &&& message < 8 && message < body - 4 ==> message == crate::early_screen::rows::wrapped(
                content.message@,
                cols,
                0,
            ).len()
            &&& trace < 6 && message + trace < body - 4 ==> trace
                == crate::early_screen::rows::wrapped(content.trace@, cols, 0).len()
            &&& message + trace + tail < body && tail < 128 ==> tail
                == crate::early_screen::rows::wrapped(content.tail@, cols, 0).len()
        }),
{
}

} // verus!
