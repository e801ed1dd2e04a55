//! A text buffer of fixed size.

use vstd::prelude::*;
use vstd::string::StringSliceAdditionalSpecFns;
use vstd::utf8::{encode_utf8_valid_utf8, is_char_boundary,
    is_char_boundary_iff_not_is_continuation_byte, is_char_boundary_start_end_of_seq,
    utf8_byte_ranges_bitwise, valid_utf8, valid_utf8_concat, valid_utf8_split};

verus! {

/// What a truncated text ends with: ` [truncated]`.
pub const MARK: [u8; 12] = [
    0x20, 0x5b, 0x74, 0x72, 0x75, 0x6e, 0x63, 0x61, 0x74, 0x65, 0x64, 0x5d,
];

/// The last character boundary of a string at or before `index`.
pub open spec fn boundary_floor(bytes: Seq<u8>, index: int) -> int
    decreases index,
{
    if index <= 0 || is_char_boundary(bytes, index) {
        index
    } else {
        boundary_floor(bytes, index - 1)
    }
}

/// Whether a byte continues a UTF-8 character.
pub open spec fn continues(byte: u8) -> bool {
    byte & 0xc0 == 0x80
}

/// The last place at or before `index` where a UTF-8 character may start.
pub open spec fn lead_floor(bytes: Seq<u8>, index: int) -> int
    decreases index,
{
    if index > 0 && continues(bytes[index]) {
        lead_floor(bytes, index - 1)
    } else {
        index
    }
}

pub open spec fn smaller(a: int, b: int) -> int {
    if a <= b {
        a
    } else {
        b
    }
}

/// A fixed-capacity text buffer which never allocates.
///
/// The panic handler has to render a message and a backtrace somewhere, and the
/// heap may be exactly what failed.  Truncation is reported rather than hidden,
/// and it stops on a UTF-8 boundary so the result is always printable.
pub struct BoundedText<const N: usize> {
    pub bytes: [u8; N],
    pub len: usize,
    pub truncated: bool,
}

impl<const N: usize> BoundedText<N> {
    pub open spec fn wf(self) -> bool {
        self.len <= N
    }

    /// What has been written.
    pub open spec fn text(self) -> Seq<u8> {
        self.bytes@.subrange(0, self.len as int)
    }

    /// Bytes that may still be written; the last one is never used.
    pub open spec fn room(self) -> int {
        if self.len < N {
            N - self.len - 1
        } else {
            0
        }
    }

    /// Bytes a text that is shown whole may have.
    pub open spec fn capacity() -> int {
        if N > 0 {
            N - 1
        } else {
            0
        }
    }

    /// What several writes show, which together wrote `all`: all of it, or as many
    /// of its whole characters as leave room for the mark, and the mark.
    pub open spec fn shown_of(all: Seq<u8>) -> Seq<u8> {
        if all.len() <= Self::capacity() {
            all
        } else if N < 12 {
            Seq::empty()
        } else {
            all.subrange(0, boundary_floor(all, N - 12)) + MARK@
        }
    }

    /// Whether the buffer is as several writes left it that together wrote `all`.
    /// A character that was cut is at most four bytes long, so what a truncated
    /// buffer holds agrees with `all` up to there.
    pub open spec fn holds(self, all: Seq<u8>) -> bool {
        &&& self.wf()
        &&& self.len <= Self::capacity()
        &&& valid_utf8(all)
        &&& if all.len() <= Self::capacity() {
            !self.truncated && self.text() == all
        } else {
            &&& self.truncated
            &&& self.len >= N - 4
            &&& forall|i: int| 0 <= i < N - 4 ==> #[trigger] self.bytes@[i] == all[i]
        }
    }

    /// Whether a write of `source` turns this buffer into `after`.
    pub open spec fn wrote(self, source: Seq<u8>, after: Self) -> bool {
        let taken = boundary_floor(source, smaller(source.len() as int, self.room()));
        &&& after.wf()
        &&& after.text() == self.text() + source.subrange(0, taken)
        &&& after.truncated == (self.truncated || taken != source.len())
    }

    /// Where a truncated text is cut to make place for the mark.
    pub open spec fn cut(self) -> int {
        lead_floor(self.bytes@, smaller(self.len as int, N - 12))
    }

    /// The text as it is shown.
    pub open spec fn shown(self) -> Seq<u8> {
        if !self.truncated {
            self.text()
        } else if N < 12 {
            Seq::empty()
        } else {
            self.bytes@.subrange(0, self.cut()) + MARK@
        }
    }

    pub fn new() -> (text: Self)
        ensures
            text.wf(),
            text.text() == Seq::<u8>::empty(),
            !text.truncated,
    {
        let text = BoundedText { bytes: [0;N], len: 0, truncated: false };
        assert(text.text() =~= Seq::<u8>::empty());
        text
    }

    /// Append as much of `text` as fits, in whole characters.
    pub fn write_str(&mut self, text: &str)
        requires
            old(self).wf(),
        ensures
            old(self).wrote(text.spec_bytes(), *final(self)),
    {
        let source: &[u8] = text.as_bytes();
        let room: usize = if self.len < N {
            N - self.len - 1
        } else {
            0
        };
        let mut take: usize = if source.len() < room {
            source.len()
        } else {
            room
        };
        let ghost most = take as int;
        let ghost goal = boundary_floor(source@, most);
        while take > 0 && !text.is_char_boundary(take)
            invariant
                source@ == text.spec_bytes(),
                take <= source@.len(),
                take <= room,
                self.wf(),
                *self == *old(self),
                room == self.room(),
                goal == boundary_floor(source@, take as int),
            decreases take,
        {
            take = take - 1;
        }
        let mut index: usize = 0;
        while index < take
            invariant
                index <= take <= source@.len(),
                old(self).wf(),
                self.len == old(self).len,
                self.truncated == old(self).truncated,
                self.len + take <= N,
                forall|i: int|
                    0 <= i < N ==> #[trigger] self.bytes@[i] == (if self.len <= i < self.len + index {
                        source@[i - self.len]
                    } else {
                        old(self).bytes@[i]
                    }),
            decreases take - index,
        {
            let at: usize = self.len + index;
            self.bytes[at] = source[index];
            index = index + 1;
        }
        self.len = self.len + take;
        if take != source.len() {
            self.truncated = true;
        }
        assert(self.text() =~= old(self).text() + source@.subrange(0, take as int));
    }

    /// Replace the end of a truncated text by the mark.
    fn seal(&mut self)
        requires
            old(self).wf(),
        ensures
            final(self).wf(),
            !final(self).truncated,
            final(self).text() == old(self).shown(),
    {
        if self.truncated {
            self.truncated = false;
            if N < 12 {
                self.len = 0;
                assert(self.text() =~= Seq::<u8>::empty());
            } else {
                let mut cut: usize = if self.len < N - 12 {
                    self.len
                } else {
                    N - 12
                };
                while cut > 0 && self.bytes[cut] & 0xc0 == 0x80
                    invariant
                        cut <= N - 12,
                        self.bytes@ == old(self).bytes@,
                        old(self).cut() == lead_floor(self.bytes@, cut as int),
                        !self.truncated,
                    decreases cut,
                {
                    cut = cut - 1;
                }
                let mut index: usize = 0;
                while index < 12
                    invariant
                        index <= 12,
                        cut <= N - 12,
                        !self.truncated,
                        forall|i: int|
                            0 <= i < N ==> #[trigger] self.bytes@[i] == (if cut <= i < cut + index {
                                MARK@[i - cut]
                            } else {
                                old(self).bytes@[i]
                            }),
                    decreases 12 - index,
                {
                    let at: usize = cut + index;
                    self.bytes[at] = MARK[index];
                    index = index + 1;
                }
                self.len = cut + 12;
                assert(self.text() =~= old(self).bytes@.subrange(0, cut as int) + MARK@);
            }
        }
    }

    /// The text as it is shown.  A truncated text is cut on a character boundary
    /// and ends with the mark, where there is place for one.
    pub fn as_bytes(&mut self) -> (shown: &[u8])
        requires
            old(self).wf(),
        ensures
            shown@ == old(self).shown(),
            final(self).wf(),
            final(self).text() == old(self).shown(),
            !final(self).truncated,
    {
        self.seal();
        &self.bytes[0..self.len]
    }
}

/// The last boundary at or before an index of a string is a boundary.
proof fn boundary_floor_is_boundary(bytes: Seq<u8>, index: int)
    requires
        valid_utf8(bytes),
        0 <= index <= bytes.len(),
    ensures
        0 <= boundary_floor(bytes, index) <= index,
        is_char_boundary(bytes, boundary_floor(bytes, index)),
    decreases index,
{
    is_char_boundary_start_end_of_seq(bytes);
    if index > 0 && !is_char_boundary(bytes, index) {
        boundary_floor_is_boundary(bytes, index - 1);
    }
}

proof fn lead_floor_is_boundary(bytes: Seq<u8>, text: Seq<u8>, index: int)
    requires
        valid_utf8(text),
        0 <= index <= text.len() <= bytes.len(),
        forall|i: int| 0 <= i < text.len() ==> #[trigger] bytes[i] == text[i],
    ensures
        0 <= lead_floor(bytes, index) <= index,
        is_char_boundary(text, lead_floor(bytes, index)),
    decreases index,
{
    is_char_boundary_start_end_of_seq(text);
    if index > 0 && continues(bytes[index]) {
        lead_floor_is_boundary(bytes, text, index - 1);
    } else if 0 < index < text.len() {
        utf8_byte_ranges_bitwise(text[index]);
        is_char_boundary_iff_not_is_continuation_byte(text, index);
    }
}

/// A boundary of a string is at most three bytes before any of its indices.
proof fn boundary_is_near(bytes: Seq<u8>, index: int) -> (near: int)
    requires
        valid_utf8(bytes),
        0 <= index <= bytes.len(),
    ensures
        0 <= near <= index <= near + 3,
        is_char_boundary(bytes, near),
    decreases bytes.len(),
{
    reveal_with_fuel(is_char_boundary, 2);
    if index == 0 {
        0
    } else {
        let first = vstd::utf8::length_of_first_scalar(bytes);
        let rest = vstd::utf8::pop_first_scalar(bytes);
        assert(1 <= first <= 4);
        if index < first {
            0
        } else {
            let near = boundary_is_near(rest, index - first);
            assert(rest.len() == bytes.len() - first);
            near + first
        }
    }
}

/// No boundary lies between the last one at or before an index and the index.
proof fn boundary_floor_is_last(bytes: Seq<u8>, index: int, other: int)
    requires
        0 <= other <= index,
        is_char_boundary(bytes, other),
    ensures
        other <= boundary_floor(bytes, index),
    decreases index,
{
    if index > 0 && !is_char_boundary(bytes, index) {
        boundary_floor_is_last(bytes, index - 1, other);
    }
}

/// A buffer's bytes and the string they begin with have the same last boundary.
proof fn floors_agree(bytes: Seq<u8>, all: Seq<u8>, index: int)
    requires
        valid_utf8(all),
        0 <= index < all.len(),
        index < bytes.len(),
        forall|i: int| 0 <= i <= index ==> #[trigger] bytes[i] == all[i],
    ensures
        lead_floor(bytes, index) == boundary_floor(all, index),
    decreases index,
{
    if index > 0 {
        assert(bytes[index] == all[index]);
        utf8_byte_ranges_bitwise(all[index]);
        is_char_boundary_iff_not_is_continuation_byte(all, index);
        floors_agree(bytes, all, index - 1);
    }
}

/// One more write.
proof fn one_more_write<const N: usize>(
    before: BoundedText<N>,
    all: Seq<u8>,
    source: Seq<u8>,
    after: BoundedText<N>,
)
    requires
        before.holds(all),
        valid_utf8(source),
        before.wrote(source, after),
    ensures
        after.holds(all + source),
{
    let most = smaller(source.len() as int, before.room());
    let taken = boundary_floor(source, most);
    let capacity = BoundedText::<N>::capacity();
    let both = all + source;
    valid_utf8_concat(all, source);
    boundary_floor_is_boundary(source, most);
    is_char_boundary_start_end_of_seq(source);
    assert(after.text().len() == before.len + taken);
    assert(after.len == before.len + taken);
    if both.len() <= capacity {
        assert(most == source.len());
        assert(source.subrange(0, taken) =~= source);
    } else {
        let near = boundary_is_near(source, most);
        boundary_floor_is_last(source, most, near);
        assert forall|i: int| 0 <= i < N - 4 implies #[trigger] after.bytes@[i] == both[i] by {
            assert(after.text()[i] == after.bytes@[i]);
            if i < before.len {
                assert(before.text()[i] == before.bytes@[i]);
            }
        }
    }
}

/// What several writes together wrote.
pub open spec fn all_of(writes: Seq<&str>) -> Seq<u8>
    decreases writes.len(),
{
    if writes.len() == 0 {
        Seq::empty()
    } else {
        all_of(writes.drop_last()) + writes.last().spec_bytes()
    }
}

proof fn writes_hold<const N: usize>(states: Seq<BoundedText<N>>, writes: Seq<&str>)
    requires
        states.len() == writes.len() + 1,
        states[0].wf(),
        states[0].text() == Seq::<u8>::empty(),
        !states[0].truncated,
        forall|i: int|
            0 <= i < writes.len() ==> (#[trigger] states[i]).wrote(
                writes[i].spec_bytes(),
                states[i + 1],
            ),
    ensures
        states.last().holds(all_of(writes)),
    decreases writes.len(),
{
    if writes.len() == 0 {
        assert(states[0].text().len() == 0);
        assert(valid_utf8(Seq::<u8>::empty()));
    } else {
        let n = writes.len() - 1;
        writes_hold(states.drop_last(), writes.drop_last());
        encode_utf8_valid_utf8(writes[n]@);
        assert(states[n].wrote(writes[n].spec_bytes(), states[n + 1]));
        one_more_write(
            states[n],
            all_of(writes.drop_last()),
            writes[n].spec_bytes(),
            states[n + 1],
        );
    }
}

/// After any number of writes to a new buffer, the text shown is all that was
/// written, or its longest prefix of whole characters that leaves room for the
/// mark, followed by the mark.  It is valid UTF-8 and fits the buffer.
pub proof fn law_writes_show_one_text<const N: usize>(
    states: Seq<BoundedText<N>>,
    writes: Seq<&str>,
)
    requires
        states.len() == writes.len() + 1,
        states[0].wf(),
        states[0].text() == Seq::<u8>::empty(),
        !states[0].truncated,
        forall|i: int|
            0 <= i < writes.len() ==> (#[trigger] states[i]).wrote(
                writes[i].spec_bytes(),
                states[i + 1],
            ),
    ensures
        states.last().shown() == BoundedText::<N>::shown_of(all_of(writes)),
        states.last().shown().len() <= N,
        valid_utf8(states.last().shown()),
        N >= 12 && all_of(writes).len() > BoundedText::<N>::capacity() ==> {
            let kept = boundary_floor(all_of(writes), N - 12);
            &&& 0 <= kept <= N - 12
            &&& is_char_boundary(all_of(writes), kept)
            &&& forall|longer: int|
                kept < longer <= N - 12 ==> !#[trigger] is_char_boundary(all_of(writes), longer)
        },
{
    writes_hold(states, writes);
    let all = all_of(writes);
    let text = states.last();
    if N >= 12 && all.len() > BoundedText::<N>::capacity() {
        floors_agree(text.bytes@, all, N - 12);
        boundary_floor_is_boundary(all, N - 12);
        let kept = boundary_floor(all, N - 12);
        assert forall|longer: int| kept < longer <= N - 12 implies !#[trigger] is_char_boundary(
            all,
            longer,
        ) by {
            if is_char_boundary(all, longer) {
                boundary_floor_is_last(all, N - 12, longer);
            }
        }
        valid_utf8_split(all, kept);
        mark_is_ascii();
        valid_utf8_concat(all.subrange(0, kept), MARK@);
        assert(text.bytes@.subrange(0, kept) =~= all.subrange(0, kept));
    } else if all.len() > BoundedText::<N>::capacity() {
        assert(valid_utf8(Seq::<u8>::empty()));
    }
}

/// A text that was shown once is shown the same again.
pub proof fn law_a_shown_text_stays<const N: usize>(text: BoundedText<N>, sealed: BoundedText<N>)
    requires
        text.wf(),
        sealed.text() == text.shown(),
        !sealed.truncated,
    ensures
        sealed.shown() == text.shown(),
{
}

/// Writing keeps the buffer's text valid UTF-8, however much of it fits.
pub proof fn law_a_write_keeps_the_text_printable(text: Seq<u8>, source: &str, room: int)
    requires
        valid_utf8(text),
        0 <= room,
    ensures
        valid_utf8(
            text + source.spec_bytes().subrange(
                0,
                boundary_floor(
                    source.spec_bytes(),
                    smaller(source.spec_bytes().len() as int, room),
                ),
            ),
        ),
{
    let bytes = source.spec_bytes();
    let most = smaller(bytes.len() as int, room);
    encode_utf8_valid_utf8(source@);
    boundary_floor_is_boundary(bytes, most);
    valid_utf8_split(bytes, boundary_floor(bytes, most));
    valid_utf8_concat(text, bytes.subrange(0, boundary_floor(bytes, most)));
}

/// A text is shown as valid UTF-8, and a truncated one ends with the mark.
pub proof fn law_the_shown_text_is_printable<const N: usize>(text: BoundedText<N>)
    requires
        text.wf(),
        valid_utf8(text.text()),
    ensures
        valid_utf8(text.shown()),
        text.truncated && N >= 12 ==> text.shown().len() >= 12 && text.shown().subrange(
            text.shown().len() - 12,
            text.shown().len() as int,
        ) == MARK@,
{
    if text.truncated && N >= 12 {
        let most = smaller(text.len as int, N - 12);
        lead_floor_is_boundary(text.bytes@, text.text(), most);
        let cut = text.cut();
        valid_utf8_split(text.text(), cut);
        assert(text.text().subrange(0, cut) =~= text.bytes@.subrange(0, cut));
        mark_is_ascii();
        valid_utf8_concat(text.bytes@.subrange(0, cut), MARK@);
        assert(text.shown().subrange(text.shown().len() - 12, text.shown().len() as int) =~= MARK@);
    } else if text.truncated {
        assert(valid_utf8(Seq::<u8>::empty()));
    }
}

proof fn ascii_is_valid(bytes: Seq<u8>)
    requires
        forall|i: int| 0 <= i < bytes.len() ==> #[trigger] bytes[i] < 0x80,
    ensures
        valid_utf8(bytes),
    decreases bytes.len(),
{
    if bytes.len() > 0 {
        assert(bytes[0] < 0x80);
        assert(vstd::utf8::is_leading_byte_width_1(bytes[0]));
        assert(vstd::utf8::valid_first_scalar(bytes));
        let rest = vstd::utf8::pop_first_scalar(bytes);
        assert(rest =~= bytes.subrange(1, bytes.len() as int));
        ascii_is_valid(rest);
    }
}

proof fn mark_is_ascii()
    ensures
        valid_utf8(MARK@),
{
    ascii_is_valid(MARK@);
}

} // verus!
