//! The line transcoder: the two per-line transformations between the
//! device form of the protocol (raw binary payload bytes embedded in the
//! line) and the client form (the payload base64-encoded).
//!
//! A line arrives with its terminator already stripped. Three shapes are
//! recognized:
//! - a read reply, `!read ok ` followed by the payload;
//! - a write request, `?write `, a register-name token, a space, an
//!   offset token, a space, and the payload;
//! - anything else, which is opaque and passes through unchanged (the
//!   device-to-client direction insists that opaque bytes are valid
//!   UTF-8 text, since the client side only speaks text).
//!
//! Both transforms are stateless, total functions of one line, specified
//! exactly by `spec_device_to_client` and `spec_client_to_device`; the
//! executable functions return exactly what those spec functions say, and
//! the device-to-client direction additionally carries the round-trip
//! guarantee that feeding its output back through the client-to-device
//! direction restores the original line.

use vstd::prelude::*;

use crate::b64::{b64_decode, b64_decode_of, b64_encode, b64_encode_of, is_b64_byte};
use crate::utf8::{is_utf8, utf8_check};

verus! {

/// Why a line could not be transcoded. Every error is fatal for the
/// affected line: there is no partial recovery.
#[derive(Clone, Copy, Debug, PartialEq, Eq, Structural)]
pub enum TranscodeError {
    /// A read reply or write request lacked an expected space-delimited
    /// token.
    MissingToken,
    /// A payload token of a client-form line was not valid base64.
    InvalidBase64,
    /// An opaque device-form line was not valid UTF-8 text.
    InvalidUtf8,
}

/// The bytes of `!read ok `, the prefix of a read reply.
pub open spec fn read_reply_prefix() -> Seq<u8> {
    seq![33u8, 114u8, 101u8, 97u8, 100u8, 32u8, 111u8, 107u8, 32u8]
}

/// The bytes of `?write `, the prefix of a write request.
pub open spec fn write_request_prefix() -> Seq<u8> {
    seq![63u8, 119u8, 114u8, 105u8, 116u8, 101u8, 32u8]
}

/// The bytes of `!read`, the first token of a client-form read reply.
pub open spec fn read_token() -> Seq<u8> {
    seq![33u8, 114u8, 101u8, 97u8, 100u8]
}

/// The bytes of `?write`, the first token of a client-form write request.
pub open spec fn write_token() -> Seq<u8> {
    seq![63u8, 119u8, 114u8, 105u8, 116u8, 101u8]
}

/// A device-form read reply: `!read ok ` followed by the raw payload.
pub open spec fn is_read_reply_device(line: Seq<u8>) -> bool {
    line.len() >= 9 && line.subrange(0, 9) == read_reply_prefix()
}

/// A device-form write request: `?write ` followed by the register name,
/// the offset, and the raw payload.
pub open spec fn is_write_request_device(line: Seq<u8>) -> bool {
    line.len() >= 7 && line.subrange(0, 7) == write_request_prefix()
}

/// The position of the first space byte at or after `from`, if any.
pub open spec fn find_space(line: Seq<u8>, from: int) -> Option<int>
    decreases line.len() - from,
{
    if from < 0 || from >= line.len() {
        None
    } else if line[from] == 32 {
        Some(from)
    } else {
        find_space(line, from + 1)
    }
}

/// Where the space-delimited token starting at `from` ends: at the next
/// space, or at the end of the line.
pub open spec fn token_end(line: Seq<u8>, from: int) -> int {
    match find_space(line, from) {
        Some(i) => i,
        None => line.len() as int,
    }
}

/// The space-delimited token starting at `from`.
pub open spec fn token_at(line: Seq<u8>, from: int) -> Seq<u8>
    recommends
        0 <= from <= line.len(),
{
    line.subrange(from, token_end(line, from))
}

/// What the device-to-client transform returns for a line: the payload of
/// a read reply or write request is replaced by its base64 text, an
/// opaque line passes through if it is valid UTF-8, and anything else is
/// an error.
pub open spec fn spec_device_to_client(line: Seq<u8>) -> Result<Seq<u8>, TranscodeError> {
    if is_read_reply_device(line) {
        Ok(read_reply_prefix() + b64_encode_of(line.skip(9)))
    } else if is_write_request_device(line) {
        match find_space(line, 7) {
            Some(i) => match find_space(line, i + 1) {
                Some(j) => Ok(
                    write_request_prefix() + line.subrange(7, i) + seq![32u8]
                        + line.subrange(i + 1, j) + seq![32u8] + b64_encode_of(line.skip(j + 1)),
                ),
                None => Err(TranscodeError::MissingToken),
            },
            None => Err(TranscodeError::MissingToken),
        }
    } else if is_utf8(line) {
        Ok(line)
    } else {
        Err(TranscodeError::InvalidUtf8)
    }
}

/// What the client-to-device transform returns for a line, going by the
/// line's space-separated tokens. For a first token `!read`, the third
/// token is the payload (the second, an acknowledgement such as `ok`, is
/// discarded and rewritten as `ok`); for `?write`, the second and third
/// tokens are kept and the fourth is the payload. The payload token is
/// base64-decoded to raw bytes. Any other line passes through unchanged.
pub open spec fn spec_client_to_device(line: Seq<u8>) -> Result<Seq<u8>, TranscodeError> {
    if token_at(line, 0) == read_token() {
        match find_space(line, 0) {
            Some(i) => match find_space(line, i + 1) {
                Some(j) => match b64_decode_of(token_at(line, j + 1)) {
                    Some(payload) => Ok(read_reply_prefix() + payload),
                    None => Err(TranscodeError::InvalidBase64),
                },
                None => Err(TranscodeError::MissingToken),
            },
            None => Err(TranscodeError::MissingToken),
        }
    } else if token_at(line, 0) == write_token() {
        match find_space(line, 0) {
            Some(i) => match find_space(line, i + 1) {
                Some(j) => match find_space(line, j + 1) {
                    Some(k) => match b64_decode_of(token_at(line, k + 1)) {
                        Some(payload) => Ok(
                            write_request_prefix() + line.subrange(i + 1, j) + seq![32u8]
                                + line.subrange(j + 1, k) + seq![32u8] + payload,
                        ),
                        None => Err(TranscodeError::InvalidBase64),
                    },
                    None => Err(TranscodeError::MissingToken),
                },
                None => Err(TranscodeError::MissingToken),
            },
            None => Err(TranscodeError::MissingToken),
        }
    } else {
        Ok(line)
    }
}

/// The view of a transform's result, for stating that an executable
/// transform returns exactly what its spec function says.
pub open spec fn transcoded_view(r: Result<Vec<u8>, TranscodeError>) -> Result<
    Seq<u8>,
    TranscodeError,
> {
    match r {
        Ok(v) => Ok(v@),
        Err(e) => Err(e),
    }
}

/// What `find_space` finding (or not finding) a space means for the
/// bytes of the line.
proof fn lemma_find_space_props(line: Seq<u8>, from: int)
    requires
        0 <= from <= line.len(),
    ensures
        (match find_space(line, from) {
            Some(i) => from <= i < line.len() && line[i] == 32 && (forall|m: int|
                from <= m < i ==> line[m] != 32),
            None => forall|m: int| from <= m < line.len() ==> line[m] != 32,
        }),
    decreases line.len() - from,
{
    if from < line.len() && line[from] != 32 {
        lemma_find_space_props(line, from + 1);
    }
}

/// `find_space` finds the space at `at`, when no space stands between
/// `from` and `at`; with `at` the line's end, it finds none.
proof fn lemma_find_space_is(line: Seq<u8>, from: int, at: int)
    requires
        0 <= from <= at <= line.len(),
        forall|m: int| from <= m < at ==> line[m] != 32,
        at < line.len() ==> line[at] == 32,
    ensures
        at < line.len() ==> find_space(line, from) == Some(at),
        at == line.len() ==> find_space(line, from) is None,
    decreases at - from,
{
    if from < at {
        lemma_find_space_is(line, from + 1, at);
    }
}

/// The position of the first space byte at or after `from`, if any.
fn find_space_from(line: &[u8], from: usize) -> (r: Option<usize>)
    requires
        from <= line.len(),
    ensures
        line@.len() <= usize::MAX,
        (match r {
            Some(i) => find_space(line@, from as int) == Some(i as int) && from <= i
                < line@.len(),
            None => find_space(line@, from as int) is None,
        }),
{
    let mut k = from;
    while k < line.len()
        invariant
            from <= k <= line@.len(),
            find_space(line@, from as int) == find_space(line@, k as int),
        decreases line@.len() - k,
    {
        if line[k] == 32 {
            return Some(k);
        }
        k = k + 1;
    }
    None
}

/// Appends the bytes of `!read ok ` to `out`.
fn push_read_reply_prefix(out: &mut Vec<u8>)
    ensures
        final(out)@ == old(out)@ + read_reply_prefix(),
{
    out.push(33);
    out.push(114);
    out.push(101);
    out.push(97);
    out.push(100);
    out.push(32);
    out.push(111);
    out.push(107);
    out.push(32);
    proof {
        assert(out@ =~= old(out)@ + read_reply_prefix());
    }
}

/// Appends the bytes of `?write ` to `out`.
fn push_write_request_prefix(out: &mut Vec<u8>)
    ensures
        final(out)@ == old(out)@ + write_request_prefix(),
{
    out.push(63);
    out.push(119);
    out.push(114);
    out.push(105);
    out.push(116);
    out.push(101);
    out.push(32);
    proof {
        assert(out@ =~= old(out)@ + write_request_prefix());
    }
}

/// The two device-form shapes cannot overlap: a read reply starts with
/// `!`, a write request with `?`.
proof fn lemma_shapes_disjoint(line: Seq<u8>)
    ensures
        !(is_read_reply_device(line) && is_write_request_device(line)),
{
    if is_read_reply_device(line) && is_write_request_device(line) {
        assert(line.subrange(0, 9)[0] == line[0]);
        assert(line.subrange(0, 7)[0] == line[0]);
    }
}

/// Whether the line begins with the device-form read-reply prefix.
fn matches_read_reply_prefix(line: &[u8]) -> (r: bool)
    ensures
        r == is_read_reply_device(line@),
{
    if line.len() < 9 {
        return false;
    }
    let r = line[0] == 33 && line[1] == 114 && line[2] == 101 && line[3] == 97 && line[4] == 100
        && line[5] == 32 && line[6] == 111 && line[7] == 107 && line[8] == 32;
    proof {
        if r {
            assert(line@.subrange(0, 9) =~= read_reply_prefix());
        }
        if line@.subrange(0, 9) == read_reply_prefix() {
            assert(forall|m: int| 0 <= m < 9 ==> line@.subrange(0, 9)[m] == line@[m]);
        }
    }
    r
}

/// Whether the line begins with the device-form write-request prefix.
fn matches_write_request_prefix(line: &[u8]) -> (r: bool)
    ensures
        r == is_write_request_device(line@),
{
    if line.len() < 7 {
        return false;
    }
    let r = line[0] == 63 && line[1] == 119 && line[2] == 114 && line[3] == 105 && line[4] == 116
        && line[5] == 101 && line[6] == 32;
    proof {
        if r {
            assert(line@.subrange(0, 7) =~= write_request_prefix());
        }
        if line@.subrange(0, 7) == write_request_prefix() {
            assert(forall|m: int| 0 <= m < 7 ==> line@.subrange(0, 7)[m] == line@[m]);
        }
    }
    r
}

/// Whether the line's first space-delimited token is `!read`.
fn first_token_is_read(line: &[u8]) -> (r: bool)
    ensures
        r == (token_at(line@, 0) == read_token()),
{
    proof {
        lemma_find_space_props(line@, 0);
    }
    let t_end = match find_space_from(line, 0) {
        Some(i) => i,
        None => line.len(),
    };
    proof {
        assert(t_end as int == token_end(line@, 0));
        assert(token_at(line@, 0).len() == t_end);
    }
    if t_end != 5 {
        return false;
    }
    let r = line[0] == 33 && line[1] == 114 && line[2] == 101 && line[3] == 97 && line[4] == 100;
    proof {
        if r {
            assert(token_at(line@, 0) =~= read_token());
        }
        if token_at(line@, 0) == read_token() {
            assert(forall|m: int| 0 <= m < 5 ==> token_at(line@, 0)[m] == line@[m]);
        }
    }
    r
}

/// Whether the line's first space-delimited token is `?write`.
fn first_token_is_write(line: &[u8]) -> (r: bool)
    ensures
        r == (token_at(line@, 0) == write_token()),
{
    proof {
        lemma_find_space_props(line@, 0);
    }
    let t_end = match find_space_from(line, 0) {
        Some(i) => i,
        None => line.len(),
    };
    proof {
        assert(t_end as int == token_end(line@, 0));
        assert(token_at(line@, 0).len() == t_end);
    }
    if t_end != 6 {
        return false;
    }
    let r = line[0] == 63 && line[1] == 119 && line[2] == 114 && line[3] == 105 && line[4] == 116
        && line[5] == 101;
    proof {
        if r {
            assert(token_at(line@, 0) =~= write_token());
        }
        if token_at(line@, 0) == write_token() {
            assert(forall|m: int| 0 <= m < 6 ==> token_at(line@, 0)[m] == line@[m]);
        }
    }
    r
}

/// Appends `src[from..to]` to `out`.
fn push_range(out: &mut Vec<u8>, src: &[u8], from: usize, to: usize)
    requires
        from <= to <= src.len(),
    ensures
        final(out)@ == old(out)@ + src@.subrange(from as int, to as int),
{
    let mut k = from;
    proof {
        assert(out@ =~= old(out)@ + src@.subrange(from as int, from as int));
    }
    while k < to
        invariant
            from <= k <= to <= src@.len(),
            out@ == old(out)@ + src@.subrange(from as int, k as int),
        decreases to - k,
    {
        out.push(src[k]);
        proof {
            assert(out@ =~= old(out)@ + src@.subrange(from as int, k as int + 1));
        }
        k = k + 1;
    }
}

/// Opaque passthrough round trip: a line whose first space-delimited
/// token is neither `!read` nor `?write` — such a line matches no
/// recognized prefix in either direction — and which is valid UTF-8 text
/// (as the device-to-client direction requires of opaque lines) is
/// returned byte-identical by both transform directions.
pub proof fn lemma_opaque_round_trip(line: Seq<u8>)
    requires
        token_at(line, 0) != read_token(),
        token_at(line, 0) != write_token(),
        is_utf8(line),
    ensures
        spec_device_to_client(line) == Ok::<Seq<u8>, TranscodeError>(line),
        spec_client_to_device(line) == Ok::<Seq<u8>, TranscodeError>(line),
{
    if is_read_reply_device(line) {
        assert(forall|m: int| 0 <= m < 9 ==> line[m] == read_reply_prefix()[m]) by {
            assert(forall|m: int| 0 <= m < 9 ==> line.subrange(0, 9)[m] == line[m]);
        }
        lemma_find_space_is(line, 0, 5);
        assert(token_at(line, 0) =~= read_token());
    }
    if is_write_request_device(line) {
        assert(forall|m: int| 0 <= m < 7 ==> line[m] == write_request_prefix()[m]) by {
            assert(forall|m: int| 0 <= m < 7 ==> line.subrange(0, 7)[m] == line[m]);
        }
        lemma_find_space_is(line, 0, 6);
        assert(token_at(line, 0) =~= write_token());
    }
}

/// The client-to-device transform inverts the device-to-client transform
/// on a read reply: its output for `!read ok ` + base64 text whose
/// decoding is the payload is the original device line back.
proof fn lemma_client_decodes_read_output(line: Seq<u8>, out: Seq<u8>, enc: Seq<u8>)
    requires
        is_read_reply_device(line),
        out == read_reply_prefix() + enc,
        forall|m: int| 0 <= m < enc.len() ==> is_b64_byte(enc[m]),
        b64_decode_of(enc) == Some(line.skip(9)),
    ensures
        spec_client_to_device(out) == Ok::<Seq<u8>, TranscodeError>(line),
{
    assert(out.len() == 9 + enc.len());
    assert(out[0] == 33 && out[1] == 114 && out[2] == 101 && out[3] == 97 && out[4] == 100
        && out[5] == 32 && out[6] == 111 && out[7] == 107 && out[8] == 32);
    assert(forall|m: int| 9 <= m < out.len() ==> out[m] == enc[m - 9]);
    assert(forall|m: int| 9 <= m < out.len() ==> out[m] != 32);
    lemma_find_space_is(out, 0, 5);
    assert(token_at(out, 0) =~= read_token());
    lemma_find_space_is(out, 6, 8);
    lemma_find_space_is(out, 9, out.len() as int);
    assert(token_at(out, 9) =~= enc);
    assert(read_reply_prefix() + line.skip(9) =~= line);
}

/// The client-to-device transform inverts the device-to-client transform
/// on a write request: its output for `?write `, the original name and
/// offset tokens, and base64 text whose decoding is the payload is the
/// original device line back.
proof fn lemma_client_decodes_write_output(line: Seq<u8>, out: Seq<u8>, enc: Seq<u8>, i: int, j: int)
    requires
        is_write_request_device(line),
        find_space(line, 7) == Some(i),
        find_space(line, i + 1) == Some(j),
        out == write_request_prefix() + line.subrange(7, i) + seq![32u8] + line.subrange(i + 1, j)
            + seq![32u8] + enc,
        forall|m: int| 0 <= m < enc.len() ==> is_b64_byte(enc[m]),
        b64_decode_of(enc) == Some(line.skip(j + 1)),
    ensures
        spec_client_to_device(out) == Ok::<Seq<u8>, TranscodeError>(line),
{
    lemma_find_space_props(line, 7);
    lemma_find_space_props(line, i + 1);
    assert(forall|m: int| 0 <= m < 7 ==> line[m] == write_request_prefix()[m]) by {
        assert(forall|m: int| 0 <= m < 7 ==> line.subrange(0, 7)[m] == line[m]);
    }
    assert(out.len() == j + 1 + enc.len());
    assert(forall|m: int| 0 <= m <= j ==> out[m] == line[m]);
    assert(forall|m: int| j + 1 <= m < out.len() ==> out[m] == enc[m - (j + 1)]);
    assert(forall|m: int| j + 1 <= m < out.len() ==> out[m] != 32);
    // the first token of the client-form line is `?write`
    assert(out[6] == 32 && line[i] == 32 && line[j] == 32);
    assert(forall|m: int| 0 <= m < 6 ==> out[m] != 32);
    lemma_find_space_is(out, 0, 6);
    assert(token_at(out, 0) =~= write_token());
    assert(token_at(out, 0).len() == 6);
    assert(token_at(out, 0) != read_token());
    // the name and offset tokens sit at the same positions as in the
    // device-form line, so the spaces that end them do too
    assert(forall|m: int| 7 <= m < i ==> out[m] != 32);
    lemma_find_space_is(out, 7, i);
    assert(forall|m: int| i + 1 <= m < j ==> out[m] != 32);
    lemma_find_space_is(out, i + 1, j);
    lemma_find_space_is(out, j + 1, out.len() as int);
    assert(token_at(out, j + 1) =~= enc);
    assert(out.subrange(7, i) =~= line.subrange(7, i));
    assert(out.subrange(i + 1, j) =~= line.subrange(i + 1, j));
    assert(write_request_prefix() + out.subrange(7, i) + seq![32u8] + out.subrange(i + 1, j)
        + seq![32u8] + line.skip(j + 1) =~= line);
}

/// Transforms one device-form line into its client form: the raw payload
/// of a read reply or write request is replaced by its base64 text, and
/// any other line passes through, provided it is valid UTF-8 text.
///
/// The result is exactly `spec_device_to_client` of the line. On the two
/// recognized shapes the transform also round-trips: feeding the output
/// back through the client-to-device direction restores the original
/// line, and the payload segment of the output is base64 text that
/// decodes to the original payload bytes.
pub fn device_to_client(line: &[u8]) -> (r: Result<Vec<u8>, TranscodeError>)
    ensures
        transcoded_view(r) == spec_device_to_client(line@),
        // round trip: a transcoded read reply or write request feeds back
        // to the original device line
        (r matches Ok(v) ==> ((is_read_reply_device(line@) || is_write_request_device(line@))
            ==> spec_client_to_device(v@) == Ok::<Seq<u8>, TranscodeError>(line@))),
        // the payload segment of a transcoded read reply is base64 text
        // that decodes to the original payload
        (r matches Ok(v) ==> (is_read_reply_device(line@) ==> v@.len() >= 9 && (forall|m: int|
            9 <= m < v@.len() ==> is_b64_byte(v@[m])) && b64_decode_of(v@.skip(9)) == Some(
            line@.skip(9),
        ))),
        // likewise for the payload segment of a transcoded write request,
        // which starts right after the offset token's space, at the same
        // position as in the device-form line
        (r matches Ok(v) ==> (match find_space(line@, 7) {
            Some(i) => match find_space(line@, i + 1) {
                Some(j) => is_write_request_device(line@) ==> v@.len() > j && (forall|m: int|
                    j + 1 <= m < v@.len() ==> is_b64_byte(v@[m])) && b64_decode_of(
                    v@.skip(j + 1),
                ) == Some(line@.skip(j + 1)),
                None => true,
            },
            None => true,
        })),
        // an empty payload encodes to empty base64 text
        (r matches Ok(v) ==> (is_read_reply_device(line@) && line@.len() == 9 ==> v@.len()
            == 9)),
{
    if matches_read_reply_prefix(line) {
        let enc = b64_encode(&line[9..line.len()]);
        let mut out: Vec<u8> = Vec::new();
        push_read_reply_prefix(&mut out);
        proof {
            assert(out@ =~= read_reply_prefix());
        }
        push_range(&mut out, enc.as_slice(), 0, enc.len());
        proof {
            assert(line@.subrange(9, line@.len() as int) =~= line@.skip(9));
            assert(enc@.subrange(0, enc@.len() as int) =~= enc@);
            assert(out@ =~= read_reply_prefix() + enc@);
            lemma_shapes_disjoint(line@);
            lemma_client_decodes_read_output(line@, out@, enc@);
            assert(out@.skip(9) =~= enc@);
        }
        Ok(out)
    } else if matches_write_request_prefix(line) {
        match find_space_from(line, 7) {
            None => Err(TranscodeError::MissingToken),
            Some(i) => match find_space_from(line, i + 1) {
                None => Err(TranscodeError::MissingToken),
                Some(j) => {
                    let enc = b64_encode(&line[j + 1..line.len()]);
                    let mut out: Vec<u8> = Vec::new();
                    push_write_request_prefix(&mut out);
                    proof {
                        assert(out@ =~= write_request_prefix());
                    }
                    push_range(&mut out, line, 7, i);
                    out.push(32);
                    push_range(&mut out, line, i + 1, j);
                    out.push(32);
                    push_range(&mut out, enc.as_slice(), 0, enc.len());
                    proof {
                        assert(line@.subrange(j as int + 1, line@.len() as int) =~= line@.skip(
                            j as int + 1,
                        ));
                        assert(enc@.subrange(0, enc@.len() as int) =~= enc@);
                        assert(out@ =~= write_request_prefix() + line@.subrange(7, i as int)
                            + seq![32u8] + line@.subrange(i as int + 1, j as int) + seq![32u8]
                            + enc@);
                        lemma_shapes_disjoint(line@);
                        lemma_client_decodes_write_output(line@, out@, enc@, i as int, j as int);
                        assert(out@.skip(j as int + 1) =~= enc@);
                    }
                    Ok(out)
                },
            },
        }
    } else {
        if utf8_check(line) {
            let mut out: Vec<u8> = Vec::new();
            push_range(&mut out, line, 0, line.len());
            proof {
                assert(line@.subrange(0, line@.len() as int) =~= line@);
                assert(out@ =~= line@);
            }
            Ok(out)
        } else {
            Err(TranscodeError::InvalidUtf8)
        }
    }
}

/// Transforms one client-form line into its device form: the base64
/// payload token of a read reply or write request is decoded to raw
/// bytes, and any other line passes through unchanged.
///
/// The result is exactly `spec_client_to_device` of the line.
pub fn client_to_device(line: &[u8]) -> (r: Result<Vec<u8>, TranscodeError>)
    ensures
        transcoded_view(r) == spec_client_to_device(line@),
{
    if first_token_is_read(line) {
        match find_space_from(line, 0) {
            None => Err(TranscodeError::MissingToken),
            Some(i) => match find_space_from(line, i + 1) {
                None => Err(TranscodeError::MissingToken),
                Some(j) => {
                    let t_end = match find_space_from(line, j + 1) {
                        Some(k) => k,
                        None => line.len(),
                    };
                    proof {
                        assert(line@.subrange(j as int + 1, t_end as int) =~= token_at(
                            line@,
                            j as int + 1,
                        ));
                    }
                    match b64_decode(&line[j + 1..t_end]) {
                        None => Err(TranscodeError::InvalidBase64),
                        Some(payload) => {
                            let mut out: Vec<u8> = Vec::new();
                            push_read_reply_prefix(&mut out);
                            proof {
                                assert(out@ =~= read_reply_prefix());
                            }
                            push_range(&mut out, payload.as_slice(), 0, payload.len());
                            proof {
                                assert(payload@.subrange(0, payload@.len() as int) =~= payload@);
                                assert(out@ =~= read_reply_prefix() + payload@);
                            }
                            Ok(out)
                        },
                    }
                },
            },
        }
    } else if first_token_is_write(line) {
        match find_space_from(line, 0) {
            None => Err(TranscodeError::MissingToken),
            Some(i) => match find_space_from(line, i + 1) {
                None => Err(TranscodeError::MissingToken),
                Some(j) => match find_space_from(line, j + 1) {
                    None => Err(TranscodeError::MissingToken),
                    Some(k) => {
                        let t_end = match find_space_from(line, k + 1) {
                            Some(t) => t,
                            None => line.len(),
                        };
                        proof {
                            assert(line@.subrange(k as int + 1, t_end as int) =~= token_at(
                                line@,
                                k as int + 1,
                            ));
                        }
                        match b64_decode(&line[k + 1..t_end]) {
                            None => Err(TranscodeError::InvalidBase64),
                            Some(payload) => {
                                let mut out: Vec<u8> = Vec::new();
                                push_write_request_prefix(&mut out);
                                proof {
                                    assert(out@ =~= write_request_prefix());
                                }
                                push_range(&mut out, line, i + 1, j);
                                out.push(32);
                                push_range(&mut out, line, j + 1, k);
                                out.push(32);
                                push_range(&mut out, payload.as_slice(), 0, payload.len());
                                proof {
                                    assert(payload@.subrange(0, payload@.len() as int)
                                        =~= payload@);
                                    assert(out@ =~= write_request_prefix() + line@.subrange(
                                        i as int + 1,
                                        j as int,
                                    ) + seq![32u8] + line@.subrange(j as int + 1, k as int)
                                        + seq![32u8] + payload@);
                                }
                                Ok(out)
                            },
                        }
                    },
                },
            },
        }
    } else {
        let mut out: Vec<u8> = Vec::new();
        push_range(&mut out, line, 0, line.len());
        proof {
            assert(line@.subrange(0, line@.len() as int) =~= line@);
            assert(out@ =~= line@);
        }
        Ok(out)
    }
}

} // verus!
