//! The socket that programs log to.

use vstd::prelude::*;
use crate::bytes::to_vec;
use crate::error::Error;

verus! {

/// Bytes of the longest message.
pub const MAX_LOG_MESSAGE: usize = 65536;

/// The white space of ASCII.
pub open spec fn is_blank(byte: u8) -> bool {
    byte == 9 || byte == 10 || byte == 12 || byte == 13 || byte == 32
}

/// A message without the white space at its end.
pub open spec fn message(bytes: Seq<u8>) -> Seq<u8>
    decreases bytes.len(),
{
    if bytes.len() > 0 && is_blank(bytes.last()) {
        message(bytes.drop_last())
    } else {
        bytes
    }
}

/// What to do with what came in.
pub enum LogStep {
    /// A line for the log.
    Line(Vec<u8>),
    /// Nothing is left of the message.
    Skip,
    /// The socket is done, and why if it failed.
    Stop(Option<Error>),
}

/// Choose what to do with what came in.
pub fn log_step(received: Result<&[u8], Error>) -> (step: LogStep)
    ensures
        match received {
            Err(error) => step == LogStep::Stop(Some(error)),
            Ok(bytes) => if bytes@.len() == 0 {
                step == LogStep::Stop(None)
            } else if message(bytes@).len() == 0 {
                step == LogStep::Skip
            } else {
                step is Line && step->Line_0@ == message(bytes@)
            },
        },
{
    match received {
        Err(error) => LogStep::Stop(Some(error)),
        Ok(bytes) => {
            let mut end: usize = bytes.len();
            if end == 0 {
                return LogStep::Stop(None);
            }
            assert(bytes@.take(end as int) =~= bytes@);
            while end > 0 && (bytes[end - 1] == 9 || bytes[end - 1] == 10 || bytes[end - 1] == 12
                || bytes[end - 1] == 13 || bytes[end - 1] == 32)
                invariant
                    end <= bytes@.len(),
                    message(bytes@.take(end as int)) == message(bytes@),
                decreases end,
            {
                assert(bytes@.take(end as int).drop_last() =~= bytes@.take(end as int - 1));
                end = end - 1;
            }
            let line = &bytes[0..end];
            assert(line@ =~= bytes@.take(end as int));
            assert(message(line@) == line@);
            if line.len() == 0 {
                LogStep::Skip
            } else {
                LogStep::Line(to_vec(line))
            }
        },
    }
}

/// A line has no white space at its end, and what was cut off is nothing else.
pub proof fn law_only_trailing_blanks_are_cut(bytes: Seq<u8>)
    ensures
        message(bytes).len() <= bytes.len(),
        message(bytes) == bytes.take(message(bytes).len() as int),
        forall|i: int| message(bytes).len() <= i < bytes.len() ==> is_blank(#[trigger] bytes[i]),
        message(bytes).len() > 0 ==> !is_blank(message(bytes).last()),
    decreases bytes.len(),
{
    if bytes.len() > 0 && is_blank(bytes.last()) {
        let rest = bytes.drop_last();
        law_only_trailing_blanks_are_cut(rest);
        let cut = message(bytes).len();
        assert(rest.take(cut as int) =~= bytes.take(cut as int));
        assert forall|i: int| cut <= i < bytes.len() implies is_blank(#[trigger] bytes[i]) by {
            if i < rest.len() {
                assert(rest[i] == bytes[i]);
            }
        }
    } else {
        assert(bytes.take(bytes.len() as int) =~= bytes);
    }
}

/// White space at the end of a message changes nothing of it, and any other byte at the end keeps
/// everything in front of it.
pub proof fn law_white_space_at_the_end_does_not_count(bytes: Seq<u8>, byte: u8)
    ensures
        byte == 9 || byte == 10 || byte == 12 || byte == 13 || byte == 32 ==> message(bytes.push(byte))
            == message(bytes),
        byte != 9 && byte != 10 && byte != 12 && byte != 13 && byte != 32 ==> message(
            bytes.push(byte),
        ) == bytes.push(byte),
{
    assert(bytes.push(byte).drop_last() =~= bytes);
}

} // verus!
