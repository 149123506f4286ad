//! Line framing: what remains of a framed line once its terminator goes.
//!
//! A framed line arrives with its trailing `\n` still attached (except,
//! possibly, for a final line cut short by end of stream) and may carry a
//! `\r` before it. Interpretation works on the content alone, so the
//! terminator bytes are stripped first: the `\n` if present, then one `\r`.
//! A bare `\n` or `\r\n` line therefore strips down to the empty line,
//! which is treated as ordinary (opaque) content, not as an error.

use vstd::prelude::*;

verus! {

/// The content of a framed line: the line without its trailing `\n`
/// (if any) and without one `\r` before that (if any).
pub open spec fn spec_strip_line_terminator(line: Seq<u8>) -> Seq<u8> {
    let no_nl = if line.len() > 0 && line[line.len() - 1] == 10 {
        line.drop_last()
    } else {
        line
    };
    if no_nl.len() > 0 && no_nl[no_nl.len() - 1] == 13 {
        no_nl.drop_last()
    } else {
        no_nl
    }
}

/// Removes a trailing `\n`, then a trailing `\r`, from a framed line,
/// leaving the line's content for the transcoder.
pub fn strip_line_terminator(buf: &mut Vec<u8>)
    ensures
        final(buf)@ == spec_strip_line_terminator(old(buf)@),
{
    if buf.len() > 0 && buf[buf.len() - 1] == 10 {
        buf.pop();
    }
    if buf.len() > 0 && buf[buf.len() - 1] == 13 {
        buf.pop();
    }
}

} // verus!
