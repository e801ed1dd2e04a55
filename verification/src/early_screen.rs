//! The screen the kernel paints before it has a console.
//!
//! A machine whose only output device is the display its own firmware
//! programmed has nowhere to report a bring-up failure until something draws
//! into the aperture the firmware left behind.  This module is the screen which
//! exists *during* bring-up, so a machine with no serial port shows where it got
//! to and what it said last.
//!
//! Three properties are load-bearing, and each follows from where this code runs
//! rather than from what it draws.
//!
//! * **Painting neither allocates nor blocks.**  A frame may be drawn from the
//!   panic handler, on any CPU, at any point.  Every buffer has a fixed size and
//!   every loop is bounded.
//! * **Every extent is bounded before it is used.**  The addressable rows and
//!   columns have a fixed ceiling, and a line longer than the screen is wrapped
//!   or clipped rather than written past the end of the last scan line.
//! * **Exactly one mapping is trusted at a time.**  See [`state::EarlyScreen`].
//!
//! The renderer is a function of a geometry description and a byte slice
//! ([`paint`]); its result is stated in [`painted`].

use vstd::prelude::*;
use crate::console_font::GLYPH_HEIGHT;
use crate::early_screen::rows::{law_rows_fit_the_screen_and_the_text, row_ref, wrap_rows, wrapped,
    wrapped_rows, RowRef, Rows};
use crate::early_screen::view::{min, TextView};

pub mod bounded_text;
pub mod laws;
pub mod rows;
pub mod state;
pub mod view;

verus! {

/// Rows of panic message shown before the log tail is protected.
pub const MESSAGE_ROWS: usize = 8;

/// Rows of backtrace shown before the log tail is protected.
pub const TRACE_ROWS: usize = 6;

/// Rows of log tail a frame always tries to keep.
///
/// The log is what says *where* the machine stopped, so a panic frame spends its
/// rows on the message first, the backtrace second and the tail third -- but
/// never on the message and the backtrace together at the tail's expense.
pub const TAIL_ROWS_MIN: usize = 4;

/// Background colour.
pub const BACKGROUND: u32 = 0x0000_0000;

/// Kernel log text.
pub const LOG_TEXT: u32 = 0x00d0_d0d0;

/// Text on the status bar.
pub const STATUS_TEXT: u32 = 0x00ff_ffff;

/// Status bar for a milestone.
pub const STATUS_BAR: u32 = 0x0020_4060;

/// Status bar for a fault.
pub const PANIC_BAR: u32 = 0x00a0_0000;

/// Panic message text.
pub const MESSAGE_TEXT: u32 = 0x00ff_9090;

/// Backtrace text.
pub const TRACE_TEXT: u32 = 0x00b0_b0b0;

/// The text one frame is composed of.
#[derive(Clone, Copy, Debug)]
pub struct Content<'a> {
    /// The status line, drawn highlighted in the top row.
    pub status: &'a [u8],
    /// Whether the frame is reporting a fault rather than progress.
    pub alert: bool,
    /// Panic message, drawn under the status line.
    pub message: &'a [u8],
    /// Backtrace, drawn after the message.
    pub trace: &'a [u8],
    /// Kernel log tail, filling whatever rows are left.
    pub tail: &'a [u8],
}

impl<'a> Content<'a> {
    /// A frame which only reports a milestone.
    pub fn milestone(status: &'a [u8], tail: &'a [u8]) -> (content: Content<'a>)
        ensures
            content.status@ == status@,
            content.tail@ == tail@,
            content.message@ == Seq::<u8>::empty(),
            content.trace@ == Seq::<u8>::empty(),
            !content.alert,
    {
        Content { status, alert: false, message: &status[0..0], trace: &status[0..0], tail }
    }

    /// The status bar's colour.
    pub open spec fn bar(self) -> u32 {
        if self.alert {
            PANIC_BAR
        } else {
            STATUS_BAR
        }
    }
}

/// What one call to [`paint`] touched.
#[derive(Clone, Copy, Debug, PartialEq, Eq, Structural)]
pub struct Painted {
    /// Text rows the frame's content occupies, which is what the next frame has
    /// to treat as its predecessor's extent.
    pub used: usize,
    /// Scan lines cleared to the background, which is what a cacheable mapping
    /// has to flush and never covers fewer lines than `used` needs.
    pub dirty: usize,
}

/// Rows below the status line.
pub open spec fn body_rows(view: TextView) -> int {
    view.row_count() - 1
}

/// Rows that the message and the backtrace may take together.
pub open spec fn pinned_budget(view: TextView) -> int {
    body_rows(view) - min(TAIL_ROWS_MIN as int, body_rows(view))
}

/// The message rows of a frame.
pub open spec fn message_rows(view: TextView, content: Content) -> Seq<RowRef> {
    wrapped_rows(
        content.message@,
        view.col_count(),
        min(pinned_budget(view), MESSAGE_ROWS as int),
        false,
    )
}

/// The backtrace rows of a frame.
pub open spec fn trace_rows(view: TextView, content: Content) -> Seq<RowRef> {
    wrapped_rows(
        content.trace@,
        view.col_count(),
        min(pinned_budget(view) - message_rows(view, content).len(), TRACE_ROWS as int),
        false,
    )
}

/// Rows of a frame that the message and the backtrace take together.
pub open spec fn pinned_rows(view: TextView, content: Content) -> int {
    message_rows(view, content).len() as int + trace_rows(view, content).len() as int
}

/// The log rows of a frame: the newest that fit under the rest.
pub open spec fn tail_rows(view: TextView, content: Content) -> Seq<RowRef> {
    wrapped_rows(
        content.tail@,
        view.col_count(),
        body_rows(view) - pinned_rows(view, content),
        true,
    )
}

/// Whether the surface has room for any cell.
pub open spec fn has_cells(view: TextView) -> bool {
    view.col_count() > 0 && view.row_count() > 0
}

/// Text rows a frame occupies.
pub open spec fn used_rows(view: TextView, content: Content) -> int {
    1 + pinned_rows(view, content) + tail_rows(view, content).len()
}

/// Scan lines a frame clears.  The first frame clears the whole surface; a later
/// one clears what it or its predecessor used.
pub open spec fn dirty_lines(view: TextView, content: Content, previous: Option<usize>) -> int {
    match previous {
        None => view.height as int,
        Some(rows) => if rows * 16 >= used_rows(view, content) * 16 {
            rows * 16
        } else {
            used_rows(view, content) * 16
        },
    }
}

/// The bytes of `text` that a row stands for.
pub open spec fn row_text(text: Seq<u8>, row: RowRef) -> Seq<u8> {
    text.subrange(row.start as int, row.start + row.len)
}

/// The surface after the first `count` of a list of rows were drawn, one below
/// the other from row `first` on.
pub open spec fn rows_drawn(
    view: TextView,
    surface: Seq<u8>,
    first: int,
    text: Seq<u8>,
    rows: Seq<RowRef>,
    fg: u32,
    count: nat,
) -> Seq<u8>
    decreases count,
{
    if count == 0 {
        surface
    } else {
        view.row_drawn(
            rows_drawn(view, surface, first, text, rows, fg, (count - 1) as nat),
            first + count - 1,
            row_text(text, rows[count - 1]),
            view.col_count(),
            fg,
            BACKGROUND,
        )
    }
}

/// The surface after its background and its status bar were drawn.
pub open spec fn barred(
    view: TextView,
    surface: Seq<u8>,
    content: Content,
    previous: Option<usize>,
) -> Seq<u8> {
    view.row_drawn(
        view.filled(
            view.filled(surface, 0, dirty_lines(view, content, previous), BACKGROUND),
            0,
            16,
            content.bar(),
        ),
        0,
        content.status@,
        view.col_count(),
        STATUS_TEXT,
        content.bar(),
    )
}

/// The surface after one frame was composed and drawn: the cleared lines, the
/// status bar, and below it the message, the backtrace and the newest log rows.
pub open spec fn painted(
    view: TextView,
    surface: Seq<u8>,
    content: Content,
    previous: Option<usize>,
) -> Seq<u8> {
    if !has_cells(view) {
        surface
    } else {
        let message = message_rows(view, content);
        let trace = trace_rows(view, content);
        let tail = tail_rows(view, content);
        let with_message = rows_drawn(
            view,
            barred(view, surface, content, previous),
            1,
            content.message@,
            message,
            MESSAGE_TEXT,
            message.len(),
        );
        let with_trace = rows_drawn(
            view,
            with_message,
            1 + message.len() as int,
            content.trace@,
            trace,
            TRACE_TEXT,
            trace.len(),
        );
        rows_drawn(
            view,
            with_trace,
            1 + pinned_rows(view, content),
            content.tail@,
            tail,
            LOG_TEXT,
            tail.len(),
        )
    }
}

/// Every kept row stands for bytes inside its text, and no more than a screen
/// row of them.
pub proof fn law_kept_rows_lie_in_the_text(
    text: Seq<u8>,
    cols: int,
    limit: int,
    keep_newest: bool,
)
    requires
        0 < cols,
        0 <= limit,
    ensures
        wrapped_rows(text, cols, limit, keep_newest).len() <= limit,
        forall|i: int|
            0 <= i < wrapped_rows(text, cols, limit, keep_newest).len() ==> {
                let row = #[trigger] wrapped_rows(text, cols, limit, keep_newest)[i];
                row.start + row.len <= text.len() && row.len <= cols
            },
{
    law_rows_fit_the_screen_and_the_text(text, cols, 0);
    let most = min(limit, 128);
    let all = wrapped(text, cols, 0);
    let kept = wrapped_rows(text, cols, limit, keep_newest);
    assert forall|i: int| 0 <= i < kept.len() implies {
        let row = #[trigger] kept[i];
        row.start + row.len <= text.len() && row.len <= cols
    } by {
        let at = if keep_newest && all.len() > most {
            i + all.len() - most
        } else {
            i
        };
        assert(kept[i] == row_ref(all[at]));
    }
}

/// Draw a list of rows, one below the other.
fn draw_rows(
    view: &TextView,
    dst: &mut [u8],
    first: usize,
    text: &[u8],
    rows: &Rows,
    fg: u32,
)
    requires
        rows.wf(),
        rows.count == rows.rows().len(),
        first <= 128,
        forall|i: int|
            0 <= i < rows.rows().len() ==> {
                let row = #[trigger] rows.rows()[i];
                row.start + row.len <= text@.len()
            },
    ensures
        final(dst)@ == rows_drawn(
            *view,
            old(dst)@,
            first as int,
            text@,
            rows.rows(),
            fg,
            rows.rows().len(),
        ),
{
    let cols: usize = view.cols();
    let size: usize = text.len();
    let mut index: usize = 0;
    while index < rows.count
        invariant
            rows.wf(),
            rows.count == rows.rows().len(),
            first <= 128,
            index <= rows.count,
            cols == view.col_count(),
            size == text@.len(),
            forall|i: int|
                0 <= i < rows.rows().len() ==> {
                    let row = #[trigger] rows.rows()[i];
                    row.start + row.len <= text@.len()
                },
            dst@ == rows_drawn(
                *view,
                old(dst)@,
                first as int,
                text@,
                rows.rows(),
                fg,
                index as nat,
            ),
        decreases rows.count - index,
    {
        let entry = rows.get(index);
        let range = entry.range();
        view.draw_row(dst, first + index, &text[range.start..range.end], cols, fg, BACKGROUND);
        index = index + 1;
    }
}

/// Compose and draw one frame into `dst`.
///
/// `previous` is how many rows the last frame used, so rows a shorter frame no
/// longer covers are cleared instead of leaving the older text behind.  It is
/// `None` for the first frame, which clears the whole surface: the aperture
/// arrives holding whatever the firmware's splash left there, and on a machine
/// whose only output is the screen a stale image is indistinguishable from a
/// kernel which never booted.
pub fn paint(
    view: &TextView,
    dst: &mut [u8],
    content: &Content<'_>,
    previous: Option<usize>,
) -> (result: Painted)
    requires
        previous matches Some(rows) ==> rows * 16 <= usize::MAX,
    ensures
        final(dst)@ == painted(*view, old(dst)@, *content, previous),
        has_cells(*view) ==> result.used == used_rows(*view, *content) && result.dirty
            == dirty_lines(*view, *content, previous),
        !has_cells(*view) ==> result.used == 0 && result.dirty == 0,
        result.used <= view.row_count(),
{
    let cols: usize = view.cols();
    let rows: usize = view.rows();
    if cols == 0 || rows == 0 {
        return Painted { used: 0, dirty: 0 };
    }
    // The status line is never surrendered, and the tail keeps at least
    // `TAIL_ROWS_MIN` rows; the message and the backtrace divide the rest.

    let body: usize = rows - 1;
    let budget: usize = if body > TAIL_ROWS_MIN {
        body - TAIL_ROWS_MIN
    } else {
        0
    };
    let message_limit: usize = if budget < MESSAGE_ROWS {
        budget
    } else {
        MESSAGE_ROWS
    };
    proof {
        law_kept_rows_lie_in_the_text(content.message@, cols as int, message_limit as int, false);
    }
    let message = wrap_rows(content.message, cols, message_limit, false);
    let trace_limit: usize = if budget - message.count < TRACE_ROWS {
        budget - message.count
    } else {
        TRACE_ROWS
    };
    proof {
        law_kept_rows_lie_in_the_text(content.trace@, cols as int, trace_limit as int, false);
    }
    let trace = wrap_rows(content.trace, cols, trace_limit, false);
    let pinned: usize = message.count + trace.count;
    proof {
        law_kept_rows_lie_in_the_text(content.tail@, cols as int, (body - pinned) as int, true);
    }
    let tail = wrap_rows(content.tail, cols, body - pinned, true);

    let used: usize = 1 + pinned + tail.count;
    // The first frame clears the whole surface, not just the lines its own cells
    // occupy: whatever the firmware drew also covers the strips of a scan line
    // and a screen edge that no glyph cell lands on.
    let dirty: usize = match previous {
        None => view.height as usize,
        Some(before) => if before * GLYPH_HEIGHT >= used * GLYPH_HEIGHT {
            before * GLYPH_HEIGHT
        } else {
            used * GLYPH_HEIGHT
        },
    };
    view.fill_rows(dst, 0, dirty, BACKGROUND);
    let bar: u32 = if content.alert {
        PANIC_BAR
    } else {
        STATUS_BAR
    };
    view.fill_rows(dst, 0, GLYPH_HEIGHT, bar);
    view.draw_row(dst, 0, content.status, cols, STATUS_TEXT, bar);
    draw_rows(view, dst, 1, content.message, &message, MESSAGE_TEXT);
    draw_rows(view, dst, 1 + message.count, content.trace, &trace, TRACE_TEXT);
    draw_rows(view, dst, 1 + pinned, content.tail, &tail, LOG_TEXT);
    Painted { used, dirty }
}

/// A frame never spends more rows than the screen has, and the message and the
/// backtrace never take the rows that are kept for the log tail.
pub proof fn law_the_tail_keeps_its_rows(view: TextView, content: Content)
    requires
        has_cells(view),
    ensures
        used_rows(view, content) <= view.row_count(),
        pinned_rows(view, content) + min(TAIL_ROWS_MIN as int, body_rows(view)) <= body_rows(view),
        message_rows(view, content).len() <= MESSAGE_ROWS,
        trace_rows(view, content).len() <= TRACE_ROWS,
{
}

/// A frame clears at least the scan lines that it draws into.
pub proof fn law_a_frame_clears_what_it_draws(
    view: TextView,
    content: Content,
    previous: Option<usize>,
)
    requires
        has_cells(view),
    ensures
        dirty_lines(view, content, previous) >= used_rows(view, content) * 16,
        previous matches Some(rows) ==> dirty_lines(view, content, previous) >= rows * 16,
{
    law_the_tail_keeps_its_rows(view, content);
}

} // verus!
