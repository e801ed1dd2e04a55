//! Splitting a text into the rows of a screen.

use vstd::prelude::*;
use core::ops::Range;

verus! {

/// Rows of text one frame may address.
///
/// A surface taller than this keeps the rows above the ceiling and leaves the
/// rest as the initial clear left them.  The ceiling exists so that a malformed
/// or hostile geometry cannot make the painter loop for an unbounded time, not
/// because any display the kernel supports reaches it.
pub const MAX_ROWS: usize = 128;

/// A byte range of one text buffer, as one scan line of the screen.
#[derive(Clone, Copy, Debug, PartialEq, Eq, Structural)]
pub struct RowRef {
    pub start: usize,
    pub len: usize,
}

impl RowRef {
    pub fn range(&self) -> (range: Range<usize>)
        requires
            self.start + self.len <= usize::MAX,
        ensures
            range.start == self.start,
            range.end == self.start + self.len,
    {
        self.start..self.start + self.len
    }
}

/// The entry that stands for `len` bytes from `start` on.
pub open spec fn row_ref(row: (int, int)) -> RowRef {
    RowRef { start: row.0 as usize, len: row.1 as usize }
}

/// The display rows one text buffer occupies.
///
/// A row set either *keeps the newest* rows or *stops* once it is full.  The log
/// tail wants its newest lines -- the last thing the kernel said before it
/// stopped is the thing worth reading -- while a panic message wants its first
/// ones.
#[derive(Clone, Copy, Debug)]
pub struct Rows {
    pub entries: [RowRef; 128],
    pub head: usize,
    pub count: usize,
    pub keep_newest: bool,
}

impl Rows {
    /// The ring's indices are inside it.
    pub open spec fn wf(self) -> bool {
        self.head < MAX_ROWS && self.count <= MAX_ROWS
    }

    /// The rows, oldest first.
    pub open spec fn rows(self) -> Seq<RowRef> {
        Seq::new(self.count as nat, |i: int| self.entries@[(self.head + i) % 128])
    }

    pub fn new(keep_newest: bool) -> (rows: Rows)
        ensures
            rows.wf(),
            rows.count == 0,
            rows.rows() == Seq::<RowRef>::empty(),
            rows.keep_newest == keep_newest,
    {
        let rows = Rows {
            entries: [RowRef { start: 0, len: 0 };128],
            head: 0,
            count: 0,
            keep_newest,
        };
        assert(rows.rows() =~= Seq::<RowRef>::empty());
        rows
    }

    /// Whether a set which stops when full has reached `limit` rows.
    pub fn full(&self, limit: usize) -> (full: bool)
        ensures
            full == (!self.keep_newest && self.count >= limit),
    {
        !self.keep_newest && self.count >= limit
    }

    /// Add a row after the newest one.  A full set drops its oldest row for it,
    /// or refuses it, as the set's mode says.
    #[verifier::spinoff_prover]
    pub fn push(&mut self, start: usize, len: usize) -> (pushed: bool)
        requires
            old(self).wf(),
        ensures
            final(self).wf(),
            final(self).keep_newest == old(self).keep_newest,
            pushed == (old(self).count < MAX_ROWS || old(self).keep_newest),
            final(self).rows() == (if old(self).count < MAX_ROWS {
                old(self).rows().push(row_ref((start as int, len as int)))
            } else if old(self).keep_newest {
                old(self).rows().drop_first().push(row_ref((start as int, len as int)))
            } else {
                old(self).rows()
            }),
            final(self).count == final(self).rows().len(),
    {
        let entry = RowRef { start, len };
        if self.count < MAX_ROWS {
            let slot: usize = (self.head + self.count) % MAX_ROWS;
            self.entries[slot] = entry;
            self.count = self.count + 1;
            proof {
                let head = self.head as int;
                let count = old(self).count as int;
                let after = old(self).rows().push(row_ref((start as int, len as int)));
                assert forall|i: int| 0 <= i < count + 1 implies #[trigger] self.rows()[i]
                    == after[i] by {
                    ring_slots_differ(head, i, count);
                }
                assert(self.rows() =~= after);
            }
            return true;
        }
        if !self.keep_newest {
            return false;
        }
        let head: usize = self.head;
        self.entries[head] = entry;
        self.head = (head + 1) % MAX_ROWS;
        proof {
            let at = head as int;
            let after = old(self).rows().drop_first().push(row_ref((start as int, len as int)));
            assert forall|i: int| 0 <= i < 128 implies #[trigger] self.rows()[i] == after[i] by {
                ring_advances(at, i);
                if i < 127 {
                    ring_slots_differ(at, 0, i + 1);
                    assert(old(self).rows().drop_first()[i] == old(self).rows()[i + 1]);
                } else {
                    assert((at + 128) % 128 == at);
                }
            }
            assert(self.rows() =~= after);
        }
        true
    }

    /// Forget the oldest rows until at most `limit` are left.
    pub fn keep_last(&mut self, limit: usize)
        requires
            old(self).wf(),
        ensures
            final(self).wf(),
            final(self).keep_newest == old(self).keep_newest,
            final(self).rows() == newest(old(self).rows(), limit as int),
            final(self).count == final(self).rows().len(),
    {
        if self.count > limit {
            self.head = (self.head + (self.count - limit)) % MAX_ROWS;
            self.count = limit;
        }
        assert(self.rows() =~= newest(old(self).rows(), limit as int));
    }

    /// Row `index`, counted from the oldest.
    pub fn get(&self, index: usize) -> (row: RowRef)
        requires
            self.wf(),
            index < self.count,
        ensures
            row == self.rows()[index as int],
    {
        self.entries[(self.head + index) % MAX_ROWS]
    }

    /// Every row, oldest first.
    pub fn iter(&self) -> (rows: Vec<RowRef>)
        requires
            self.wf(),
        ensures
            rows@ == self.rows(),
    {
        self.newest(self.count)
    }

    /// The newest `limit` rows, oldest first.
    pub fn newest(&self, limit: usize) -> (rows: Vec<RowRef>)
        requires
            self.wf(),
        ensures
            rows@ == newest(self.rows(), limit as int),
    {
        let mut rows: Vec<RowRef> = Vec::new();
        let skip: usize = if self.count > limit {
            self.count - limit
        } else {
            0
        };
        let mut index: usize = skip;
        while index < self.count
            invariant
                self.wf(),
                skip <= index <= self.count,
                rows@ == self.rows().subrange(skip as int, index as int),
            decreases self.count - index,
        {
            rows.push(self.get(index));
            index = index + 1;
            assert(rows@ =~= self.rows().subrange(skip as int, index as int));
        }
        assert(rows@ =~= newest(self.rows(), limit as int));
        rows
    }
}

/// Two places of the ring that are less than a turn apart are different.
proof fn ring_slots_differ(head: int, i: int, j: int)
    requires
        0 <= head < 128,
        0 <= i <= j < 128,
    ensures
        i < j ==> (head + i) % 128 != (head + j) % 128,
        0 <= (head + i) % 128 < 128,
        0 <= (head + j) % 128 < 128,
{
}

/// Moving the head on by one moves every place on by one.
proof fn ring_advances(head: int, i: int)
    requires
        0 <= head < 128,
        0 <= i < 128,
    ensures
        ((head + 1) % 128 + i) % 128 == (head + (i + 1)) % 128,
{
}

/// The last `limit` elements, or all of them where there are fewer.
pub open spec fn newest<A>(all: Seq<A>, limit: int) -> Seq<A> {
    if all.len() > limit {
        all.subrange(all.len() - limit, all.len() as int)
    } else {
        all
    }
}

/// The first `limit` elements, or all of them where there are fewer.
pub open spec fn oldest<A>(all: Seq<A>, limit: int) -> Seq<A> {
    if all.len() > limit {
        all.subrange(0, limit)
    } else {
        all
    }
}

/// Whether a byte ends a line.
pub open spec fn is_break(byte: u8) -> bool {
    byte == 0x0a || byte == 0x0d
}

/// The first line break at or after `from`, or the end of the text.
pub open spec fn line_end(text: Seq<u8>, from: int) -> int
    decreases text.len() - from,
{
    if 0 <= from < text.len() && !is_break(text[from]) {
        line_end(text, from + 1)
    } else {
        from
    }
}

/// Where the line after the break at `end` starts: a carriage return is a line
/// break unless it is the first half of a CRLF pair.
pub open spec fn next_line(text: Seq<u8>, end: int) -> int {
    if text[end] == 0x0d && end + 1 < text.len() && text[end + 1] == 0x0a {
        end + 2
    } else {
        end + 1
    }
}

/// The rows of `cols` columns that the bytes `start..end` of one line take, as
/// pairs of start and length.
pub open spec fn chunks(start: int, end: int, cols: int) -> Seq<(int, int)>
    decreases end - start,
{
    if cols <= 0 || start >= end {
        Seq::empty()
    } else if end - start <= cols {
        seq![(start, end - start)]
    } else {
        seq![(start, cols)] + chunks(start + cols, end, cols)
    }
}

/// The rows of `cols` columns that the text takes from the line start `from` on.
/// A line longer than the screen wraps, an empty line is an empty row, and the
/// end of the text ends the last line without starting another.
pub open spec fn wrapped(text: Seq<u8>, cols: int, from: int) -> Seq<(int, int)>
    decreases text.len() - from,
{
    let end = line_end(text, from);
    if end >= text.len() || end < from {
        chunks(from, end, cols)
    } else {
        let line = if end == from {
            seq![(from, 0int)]
        } else {
            chunks(from, end, cols)
        };
        line + wrapped(text, cols, next_line(text, end))
    }
}

/// The row set that a text leaves behind: the first or the newest `limit` rows.
pub open spec fn wrapped_rows(
    text: Seq<u8>,
    cols: int,
    limit: int,
    keep_newest: bool,
) -> Seq<RowRef> {
    let most = if limit < MAX_ROWS {
        limit
    } else {
        MAX_ROWS as int
    };
    if cols == 0 || limit == 0 {
        Seq::empty()
    } else if keep_newest {
        newest(wrapped(text, cols, 0), most).map_values(|row: (int, int)| row_ref(row))
    } else {
        oldest(wrapped(text, cols, 0), most).map_values(|row: (int, int)| row_ref(row))
    }
}

proof fn line_end_bounds(text: Seq<u8>, from: int)
    requires
        0 <= from <= text.len(),
    ensures
        from <= line_end(text, from) <= text.len(),
        line_end(text, from) < text.len() ==> is_break(text[line_end(text, from)]),
        forall|i: int| from <= i < line_end(text, from) ==> !is_break(#[trigger] text[i]),
    decreases text.len() - from,
{
    if from < text.len() && !is_break(text[from]) {
        line_end_bounds(text, from + 1);
    }
}

proof fn line_end_is(text: Seq<u8>, from: int, end: int)
    requires
        0 <= from <= end <= text.len(),
        end == text.len() || is_break(text[end]),
        forall|i: int| from <= i < end ==> !is_break(#[trigger] text[i]),
    ensures
        line_end(text, from) == end,
    decreases end - from,
{
    if from < end {
        line_end_is(text, from + 1, end);
    }
}

/// A full row is split off the front of a line that goes on after it.
proof fn wrapped_splits(text: Seq<u8>, cols: int, start: int)
    requires
        0 < cols,
        0 <= start,
        start + cols < text.len(),
        forall|i: int| start <= i <= start + cols ==> !is_break(#[trigger] text[i]),
    ensures
        wrapped(text, cols, start) == seq![(start, cols)] + wrapped(text, cols, start + cols),
{
    line_end_bounds(text, start + cols);
    let end = line_end(text, start + cols);
    line_end_is(text, start, end);
    assert(end > start + cols) by {
        assert(!is_break(text[start + cols]));
    }
    assert(chunks(start, end, cols) == seq![(start, cols)] + chunks(start + cols, end, cols));
    if end < text.len() {
        let rest = wrapped(text, cols, next_line(text, end));
        assert(wrapped(text, cols, start) == chunks(start, end, cols) + rest);
        assert(wrapped(text, cols, start + cols) == chunks(start + cols, end, cols) + rest);
        assert(wrapped(text, cols, start) =~= seq![(start, cols)] + wrapped(
            text,
            cols,
            start + cols,
        ));
    }
}

/// The last row of a line ends at its break.
proof fn wrapped_breaks(text: Seq<u8>, cols: int, start: int, len: int)
    requires
        0 < cols,
        0 <= start,
        0 <= len <= cols,
        start + len < text.len(),
        is_break(text[start + len]),
        forall|i: int| start <= i < start + len ==> !is_break(#[trigger] text[i]),
    ensures
        wrapped(text, cols, start) == seq![(start, len)] + wrapped(
            text,
            cols,
            next_line(text, start + len),
        ),
{
    line_end_is(text, start, start + len);
}

/// The last row of the text ends with it.
proof fn wrapped_ends(text: Seq<u8>, cols: int, start: int, len: int)
    requires
        0 < cols,
        0 <= start,
        0 <= len <= cols,
        start + len == text.len(),
        forall|i: int| start <= i < start + len ==> !is_break(#[trigger] text[i]),
    ensures
        wrapped(text, cols, start) == (if len == 0 {
            Seq::empty()
        } else {
            seq![(start, len)]
        }),
{
    line_end_is(text, start, start + len);
}

/// The row set that holds `done`.
spec fn holds(rows: Rows, done: Seq<(int, int)>) -> bool {
    &&& rows.wf()
    &&& rows.count == rows.rows().len()
    &&& rows.rows() == (if rows.keep_newest {
        newest(done, MAX_ROWS as int)
    } else {
        done
    }).map_values(|row: (int, int)| row_ref(row))
}

fn push_row(rows: &mut Rows, start: usize, len: usize, done: Ghost<Seq<(int, int)>>)
    requires
        holds(*old(rows), done@),
        old(rows).keep_newest || old(rows).count < MAX_ROWS,
    ensures
        holds(*final(rows), done@.push((start as int, len as int))),
        final(rows).keep_newest == old(rows).keep_newest,
{
    let ghost row = (start as int, len as int);
    rows.push(start, len);
    proof {
        let kept = if rows.keep_newest {
            newest(done@.push(row), MAX_ROWS as int)
        } else {
            done@.push(row)
        };
        assert(rows.rows() =~= kept.map_values(|row: (int, int)| row_ref(row)));
    }
}

/// Split `text` into screen rows of `cols` columns.
///
/// A line longer than the screen wraps rather than being dropped, and a carriage
/// return is a line break unless it is the first half of a CRLF pair.  At most
/// `limit` rows are produced; see [`Rows`] for which end of a longer text
/// survives.
pub fn wrap_rows(text: &[u8], cols: usize, limit: usize, keep_newest: bool) -> (rows: Rows)
    ensures
        rows.wf(),
        rows.keep_newest == keep_newest,
        rows.rows() == wrapped_rows(text@, cols as int, limit as int, keep_newest),
        rows.count == rows.rows().len(),
{
    let mut rows = Rows::new(keep_newest);
    let most: usize = if limit < MAX_ROWS {
        limit
    } else {
        MAX_ROWS
    };
    if cols == 0 || most == 0 {
        return rows;
    }
    let mut start: usize = 0;
    let mut len: usize = 0;
    let ghost all = wrapped(text@, cols as int, 0);
    let ghost mut done: Seq<(int, int)> = Seq::empty();
    let mut index: usize = 0;
    proof {
        assert(newest(done, MAX_ROWS as int) =~= done);
        assert(rows.rows() =~= done.map_values(|row: (int, int)| row_ref(row)));
        assert(all =~= done + wrapped(text@, cols as int, 0));
    }
    while index < text.len()
        invariant
            0 < cols,
            0 < most <= MAX_ROWS,
            most == (if limit < MAX_ROWS {
                limit
            } else {
                MAX_ROWS
            }),
            holds(rows, done),
            rows.keep_newest == keep_newest,
            !keep_newest ==> rows.count < most,
            all == wrapped(text@, cols as int, 0),
            all == done + wrapped(text@, cols as int, start as int),
            start + len <= text@.len(),
            len <= cols,
            index <= text@.len(),
            forall|i: int| start <= i < start + len ==> !is_break(#[trigger] text@[i]),
            index == start + len || (index == start + len + 1 && index < text@.len()
                && text@[index - 1] == 0x0d && text@[index as int] == 0x0a),
        decreases text@.len() - index,
    {
        let byte: u8 = text[index];
        if byte == 0x0d && index + 1 < text.len() && text[index + 1] == 0x0a {
            index = index + 1;
            continue ;
        }
        if byte == 0x0a || byte == 0x0d {
            let ghost before = done;
            push_row(&mut rows, start, len, Ghost(done));
            proof {
                wrapped_breaks(text@, cols as int, start as int, len as int);
                done = before.push((start as int, len as int));
                assert(all =~= done + wrapped(
                    text@,
                    cols as int,
                    next_line(text@, start as int + len as int),
                ));
            }
            if rows.full(most) {
                proof {
                    stopped_rows(rows, done, all, most as int);
                }
                return rows;
            }
            start = index + 1;
            len = 0;
            index = index + 1;
            continue ;
        }
        if len == cols {
            let ghost before = done;
            push_row(&mut rows, start, len, Ghost(done));
            proof {
                assert(!is_break(text@[index as int]));
                wrapped_splits(text@, cols as int, start as int);
                done = before.push((start as int, len as int));
                assert(all =~= done + wrapped(text@, cols as int, start as int + cols as int));
            }
            if rows.full(most) {
                proof {
                    stopped_rows(rows, done, all, most as int);
                }
                return rows;
            }
            start = index;
            len = 0;
        }
        len = len + 1;
        index = index + 1;
    }
    proof {
        wrapped_ends(text@, cols as int, start as int, len as int);
    }
    if len > 0 {
        push_row(&mut rows, start, len, Ghost(done));
        proof {
            done = done.push((start as int, len as int));
        }
    }
    assert(all =~= done);
    if keep_newest {
        rows.keep_last(most);
        assert(rows.rows() =~= newest(all, most as int).map_values(
            |row: (int, int)| row_ref(row),
        ));
    }
    rows
}

/// A set that stopped at its limit holds exactly the first rows of the text.
proof fn stopped_rows(rows: Rows, done: Seq<(int, int)>, all: Seq<(int, int)>, most: int)
    requires
        holds(rows, done),
        !rows.keep_newest,
        rows.count == most,
        done.len() <= all.len(),
        forall|i: int| 0 <= i < done.len() ==> #[trigger] done[i] == all[i],
    ensures
        rows.rows() == oldest(all, most).map_values(|row: (int, int)| row_ref(row)),
{
    assert(oldest(all, most) =~= done);
}

/// A row that a text is split into is never wider than the screen, and its bytes
/// lie inside the text.
pub proof fn law_rows_fit_the_screen_and_the_text(text: Seq<u8>, cols: int, from: int)
    requires
        0 < cols,
        0 <= from <= text.len(),
    ensures
        forall|i: int|
            0 <= i < wrapped(text, cols, from).len() ==> {
                let row = #[trigger] wrapped(text, cols, from)[i];
                from <= row.0 && 0 <= row.1 <= cols && row.0 + row.1 <= text.len()
            },
    decreases text.len() - from,
{
    line_end_bounds(text, from);
    let end = line_end(text, from);
    chunks_fit(from, end, cols);
    if end < text.len() {
        let next = next_line(text, end);
        law_rows_fit_the_screen_and_the_text(text, cols, next);
        let line = if end == from {
            seq![(from, 0int)]
        } else {
            chunks(from, end, cols)
        };
        let rest = wrapped(text, cols, next);
        assert forall|i: int| 0 <= i < (line + rest).len() implies {
            let row = #[trigger] (line + rest)[i];
            from <= row.0 && 0 <= row.1 <= cols && row.0 + row.1 <= text.len()
        } by {
            if i < line.len() {
                assert((line + rest)[i] == line[i]);
            } else {
                assert((line + rest)[i] == rest[i - line.len()]);
            }
        }
    }
}

proof fn chunks_fit(start: int, end: int, cols: int)
    requires
        0 < cols,
        start <= end,
    ensures
        forall|i: int|
            0 <= i < chunks(start, end, cols).len() ==> {
                let row = #[trigger] chunks(start, end, cols)[i];
                start <= row.0 && 0 < row.1 <= cols && row.0 + row.1 <= end
            },
    decreases end - start,
{
    if end - start > cols {
        chunks_fit(start + cols, end, cols);
        let rest = chunks(start + cols, end, cols);
        let all = chunks(start, end, cols);
        assert forall|i: int| 0 <= i < all.len() implies {
            let row = #[trigger] all[i];
            start <= row.0 && 0 < row.1 <= cols && row.0 + row.1 <= end
        } by {
            if i > 0 {
                assert(all[i] == rest[i - 1]);
            }
        }
    }
}

/// Whether byte `at` of the text is one of a row's bytes.
pub open spec fn row_covers(row: (int, int), at: int) -> bool {
    row.0 <= at < row.0 + row.1
}

/// Wrapping loses nothing: every byte of a line is in one of the line's rows.
pub proof fn law_wrapping_keeps_every_byte(start: int, end: int, cols: int, at: int)
    requires
        0 < cols,
        start <= at < end,
    ensures
        exists|i: int|
            0 <= i < chunks(start, end, cols).len() && row_covers(
                #[trigger] chunks(start, end, cols)[i],
                at,
            ),
    decreases end - start,
{
    let all = chunks(start, end, cols);
    if end - start > cols && at >= start + cols {
        law_wrapping_keeps_every_byte(start + cols, end, cols, at);
        let rest = chunks(start + cols, end, cols);
        let j = choose|j: int| 0 <= j < rest.len() && row_covers(#[trigger] rest[j], at);
        assert(all[j + 1] == rest[j]);
    } else {
        assert(row_covers(all[0], at));
    }
}

proof fn on_a_row_from(text: Seq<u8>, cols: int, from: int, at: int) -> (i: int)
    requires
        0 < cols,
        0 <= from <= at < text.len(),
        !is_break(text[at]),
    ensures
        0 <= i < wrapped(text, cols, from).len(),
        row_covers(wrapped(text, cols, from)[i], at),
    decreases text.len() - from,
{
    line_end_bounds(text, from);
    let end = line_end(text, from);
    let all = wrapped(text, cols, from);
    if at < end {
        law_wrapping_keeps_every_byte(from, end, cols, at);
        let line = chunks(from, end, cols);
        let i = choose|i: int| 0 <= i < line.len() && row_covers(#[trigger] line[i], at);
        assert(all[i] == line[i]);
        i
    } else {
        line_ends_at_a_break(text, from);
        let next = next_line(text, end);
        assert(at != end);
        assert(next <= at);
        let j = on_a_row_from(text, cols, next, at);
        let line = if end == from {
            seq![(from, 0int)]
        } else {
            chunks(from, end, cols)
        };
        assert(all[line.len() + j] == wrapped(text, cols, next)[j]);
        line.len() + j
    }
}

proof fn line_ends_at_a_break(text: Seq<u8>, from: int)
    requires
        0 <= from <= text.len(),
    ensures
        line_end(text, from) < text.len() ==> is_break(text[line_end(text, from)]),
    decreases text.len() - from,
{
    if from < text.len() && !is_break(text[from]) {
        line_ends_at_a_break(text, from + 1);
    }
}

/// Every byte of a text that is no line break is on one of its rows: a line longer than
/// the screen wraps, and nothing of it is dropped.
pub proof fn law_every_byte_is_on_a_row(text: Seq<u8>, cols: int, at: int)
    requires
        0 < cols,
        0 <= at < text.len(),
        !is_break(text[at]),
    ensures
        exists|i: int|
            0 <= i < wrapped(text, cols, 0).len() && row_covers(
                #[trigger] wrapped(text, cols, 0)[i],
                at,
            ),
{
    let i = on_a_row_from(text, cols, 0, at);
    assert(row_covers(wrapped(text, cols, 0)[i], at));
}

/// The rows of a text come in the order of its bytes and share none of them; no row holds a line
/// break, and a row that is not full ends where its line does.
pub proof fn law_rows_follow_the_text(text: Seq<u8>, cols: int, from: int, i: int, j: int)
    requires
        0 < cols,
        0 <= from <= text.len(),
        0 <= i <= j < wrapped(text, cols, from).len(),
    ensures
        ({
            let all = wrapped(text, cols, from);
            &&& i < j ==> all[i].0 + all[i].1 <= all[j].0
            &&& forall|at: int|
                all[i].0 <= at < all[i].0 + all[i].1 ==> text[at] != 0x0a && text[at] != 0x0d
            &&& all[i].1 < cols ==> all[i].0 + all[i].1 == text.len() || text[all[i].0 + all[i].1]
                == 0x0a || text[all[i].0 + all[i].1] == 0x0d
        }),
    decreases text.len() - from,
{
    line_end_bounds(text, from);
    law_rows_fit_the_screen_and_the_text(text, cols, from);
    let end = line_end(text, from);
    let all = wrapped(text, cols, from);
    let line = if end == from && end < text.len() {
        seq![(from, 0int)]
    } else {
        chunks(from, end, cols)
    };
    chunks_fit(from, end, cols);
    if i < line.len() && line =~= chunks(from, end, cols) {
        chunks_follow(from, end, cols, i, if j < line.len() {
            j
        } else {
            i
        });
    }
    assert forall|at: int| all[i].0 <= at < all[i].0 + all[i].1 && i < line.len() implies !is_break(
        text[at],
    ) by {
        assert(all[i] == line[i]);
    }
    if end < text.len() {
        let next = next_line(text, end);
        let rest = wrapped(text, cols, next);
        law_rows_fit_the_screen_and_the_text(text, cols, next);
        if j >= line.len() {
            assert(all[j] == rest[j - line.len()]);
            if i >= line.len() {
                law_rows_follow_the_text(text, cols, next, i - line.len(), j - line.len());
                assert(all[i] == rest[i - line.len()]);
            } else {
                assert(all[i] == line[i]);
            }
        } else {
            assert(all[i] == line[i] && all[j] == line[j]);
        }
    }
}

proof fn chunks_follow(start: int, end: int, cols: int, i: int, j: int)
    requires
        0 < cols,
        start <= end,
        0 <= i <= j < chunks(start, end, cols).len(),
    ensures
        ({
            let all = chunks(start, end, cols);
            &&& i < j ==> all[i].0 + all[i].1 <= all[j].0
            &&& all[i].1 < cols ==> all[i].0 + all[i].1 == end
        }),
    decreases end - start,
{
    if end - start > cols {
        let rest = chunks(start + cols, end, cols);
        let all = chunks(start, end, cols);
        chunks_fit(start + cols, end, cols);
        if i > 0 {
            chunks_follow(start + cols, end, cols, i - 1, j - 1);
            assert(all[i] == rest[i - 1] && all[j] == rest[j - 1]);
        } else if j > 0 {
            assert(all[j] == rest[j - 1]);
        }
    }
}

/// A carriage return and the line feed behind it break one line, not two; either of them alone
/// breaks one.
pub proof fn law_a_pair_breaks_one_line(text: Seq<u8>, end: int)
    requires
        0 <= end < text.len(),
    ensures
        end + 1 < text.len() && text[end] == 0x0d && text[end + 1] == 0x0a ==> next_line(text, end)
            == end + 2,
        text[end] == 0x0a ==> next_line(text, end) == end + 1,
        end + 1 == text.len() || text[end + 1] != 0x0a ==> next_line(text, end) == end + 1,
{
}

/// A row set that keeps the newest rows has the last ones of the text, one that stops when it is
/// full the first ones, both in the order of the text and as many as fit.
pub proof fn law_a_row_set_keeps_one_end(text: Seq<u8>, cols: int, limit: int, i: int)
    requires
        0 < cols,
        0 < limit,
    ensures
        ({
            let all = wrapped(text, cols, 0);
            let last = wrapped_rows(text, cols, limit, true);
            let first = wrapped_rows(text, cols, limit, false);
            let kept = last.len() as int;
            &&& first.len() == kept
            &&& kept <= limit && kept <= 128 && kept <= all.len()
            &&& kept == all.len() || kept == limit || kept == 128
            &&& 0 <= i < kept ==> last[i] == row_ref(all[all.len() - kept + i])
            &&& 0 <= i < kept ==> first[i] == row_ref(all[i])
        }),
{
}

} // verus!
