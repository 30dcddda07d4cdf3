//! The request frame: an array header followed by length-prefixed elements.
//!
//! ```text
//! *<count>\r\n
//! $<len>\r\n<len bytes>\r\n
//! ...
//! ```
//!
//! A count of `-1` is the null request and a length of `-1` a null element.
//! A count of `0` ends the request at once, whatever follows. Any other
//! count is not held against the number of elements that follow: the
//! elements run to the end of the buffer.

use crate::decimal::{parse_i64, parse_i64_spec};
use crate::error::ProtocolError;
use vstd::prelude::*;
use vstd::slice::*;

verus! {

/// The carriage return that opens every line break.
pub const CR: u8 = 13;

/// The line feed that closes every line break.
pub const LF: u8 = 10;

/// The byte `*`, which opens the array header.
pub const ARRAY_MARK: u8 = 42;

/// The byte `$`, which opens an element.
pub const BULK_MARK: u8 = 36;

/// The index of the first carriage return at or after `from`, or the length
/// of `buf` where there is none.
pub open spec fn line_end(buf: Seq<u8>, from: int) -> int
    decreases buf.len() - from,
{
    if from >= buf.len() {
        buf.len() as int
    } else if buf[from] == CR {
        from
    } else {
        line_end(buf, from + 1)
    }
}

/// The length prefix that starts at `from`: a signed decimal that runs up to
/// the first carriage return, which a line feed must follow. Gives the number
/// and the index just past the line feed.
pub open spec fn prefix_at(buf: Seq<u8>, from: int) -> Option<(i64, int)> {
    let end = line_end(buf, from);
    if end + 1 < buf.len() && buf[end + 1] == LF {
        match parse_i64_spec(buf.subrange(from, end)) {
            Some(n) => Some((n, end + 2)),
            None => None,
        }
    } else {
        None
    }
}

/// Puts `head` in front of the elements of `rest`; an error stays an error.
pub open spec fn prepend(
    head: Option<Seq<u8>>,
    rest: Result<Seq<Option<Seq<u8>>>, ProtocolError>,
) -> Result<Seq<Option<Seq<u8>>>, ProtocolError> {
    match rest {
        Ok(tail) => Ok(seq![head] + tail),
        Err(e) => Err(e),
    }
}

/// The elements that stand in `buf` from `pos` to its end.
///
/// Each element opens with `$` and a length prefix. A length of `-1` is a
/// null element and takes no content. A length `n >= 0` takes the next `n`
/// bytes as they are, and a carriage return and line feed must close them.
/// The first fault met from left to right decides the error.
pub open spec fn elements_at(buf: Seq<u8>, pos: int) -> Result<
    Seq<Option<Seq<u8>>>,
    ProtocolError,
>
    decreases buf.len() - pos,
    via elements_at_decreases
{
    if pos < 0 || pos >= buf.len() {
        Ok(Seq::empty())
    } else if buf[pos] != BULK_MARK {
        Err(ProtocolError::BadLength)
    } else {
        match prefix_at(buf, pos + 1) {
            None => Err(ProtocolError::BadLength),
            Some((n, start)) => {
                if n == -1 {
                    prepend(None, elements_at(buf, start))
                } else if n < 0 {
                    Err(ProtocolError::BadLength)
                } else if start + n + 2 > buf.len() {
                    Err(ProtocolError::Truncated)
                } else if buf[start + n] != CR || buf[start + n + 1] != LF {
                    Err(ProtocolError::BadLength)
                } else {
                    prepend(
                        Some(buf.subrange(start, start + n)),
                        elements_at(buf, start + n + 2),
                    )
                }
            },
        }
    }
}

#[via_fn]
proof fn elements_at_decreases(buf: Seq<u8>, pos: int) {
    if 0 <= pos < buf.len() {
        lemma_line_end(buf, pos + 1);
    }
}

/// What a buffer decodes to: an error, the null request (`None`), or the
/// elements of the request, each null (`None`) or its content.
///
/// The buffer must open with `*` and a count. A count of `-1` is the null
/// request, a count of `0` the empty request; a lower count is malformed.
/// After any other count the elements run to the end of the buffer.
pub open spec fn decode_spec(buf: Seq<u8>) -> Result<
    Option<Seq<Option<Seq<u8>>>>,
    ProtocolError,
> {
    if buf.len() == 0 {
        Err(ProtocolError::EmptyInput)
    } else if buf[0] != ARRAY_MARK {
        Err(ProtocolError::BadLength)
    } else {
        match prefix_at(buf, 1) {
            None => Err(ProtocolError::BadLength),
            Some((count, start)) => {
                if count == -1 {
                    Ok(None)
                } else if count < 0 {
                    Err(ProtocolError::BadLength)
                } else if count == 0 {
                    Ok(Some(Seq::empty()))
                } else {
                    match elements_at(buf, start) {
                        Ok(elements) => Ok(Some(elements)),
                        Err(e) => Err(e),
                    }
                }
            },
        }
    }
}

/// The first carriage return at or after `from` lies between `from` and the
/// end of the buffer, and no byte before it is one.
proof fn lemma_line_end(buf: Seq<u8>, from: int)
    requires
        0 <= from <= buf.len(),
    ensures
        from <= line_end(buf, from) <= buf.len(),
        line_end(buf, from) < buf.len() ==> buf[line_end(buf, from)] == CR,
        forall|j: int| from <= j < line_end(buf, from) ==> buf[j] != CR,
    decreases buf.len() - from,
{
    if from < buf.len() && buf[from] != CR {
        lemma_line_end(buf, from + 1);
    }
}

/// Where the content of one element lies in a buffer: the bytes from `start`
/// up to `end`.
#[derive(Clone, Copy, Debug, PartialEq, Eq, Structural)]
pub struct Span {
    pub start: usize,
    pub end: usize,
}

/// Whether `span` lies in `buf` between the line feed of its length prefix
/// and the carriage return that closes it.
pub open spec fn span_fits(buf: Seq<u8>, span: Span) -> bool {
    &&& 1 <= span.start <= span.end
    &&& span.end + 2 <= buf.len()
    &&& buf[span.start - 1] == LF
    &&& buf[span.end as int] == CR
    &&& buf[span.end + 1] == LF
}

/// Whether every span of `spans` fits in `buf`.
pub open spec fn spans_fit(buf: Seq<u8>, spans: Seq<Option<Span>>) -> bool {
    forall|i: int|
        0 <= i < spans.len() ==> (#[trigger] spans[i] matches Some(span) ==> span_fits(buf, span))
}

/// The content that one span, or a null element, stands for.
pub open spec fn span_content(buf: Seq<u8>, span: Option<Span>) -> Option<Seq<u8>> {
    match span {
        Some(s) => Some(buf.subrange(s.start as int, s.end as int)),
        None => None,
    }
}

/// The elements that `spans` stand for.
pub open spec fn contents(buf: Seq<u8>, spans: Seq<Option<Span>>) -> Seq<Option<Seq<u8>>> {
    Seq::new(spans.len(), |i: int| span_content(buf, spans[i]))
}

/// Whether the outcome `r` of a scan agrees with what `buf` decodes to.
pub open spec fn scan_agrees(
    buf: Seq<u8>,
    r: Result<Option<Vec<Option<Span>>>, ProtocolError>,
) -> bool {
    match decode_spec(buf) {
        Err(e) => r == Err::<Option<Vec<Option<Span>>>, ProtocolError>(e),
        Ok(None) => r == Ok::<Option<Vec<Option<Span>>>, ProtocolError>(None),
        Ok(Some(elements)) => {
            &&& r matches Ok(Some(spans))
            &&& spans_fit(buf, spans@)
            &&& contents(buf, spans@) == elements
        },
    }
}

/// The content of one decoded element.
pub open spec fn element_view(element: Option<Vec<u8>>) -> Option<Seq<u8>> {
    match element {
        Some(bytes) => Some(bytes@),
        None => None,
    }
}

/// The contents of decoded elements.
pub open spec fn elements_view(elements: Seq<Option<Vec<u8>>>) -> Seq<Option<Seq<u8>>> {
    Seq::new(elements.len(), |i: int| element_view(elements[i]))
}

/// The outcome of [`decode`] with each element taken by its content.
pub open spec fn decoded_view(r: Result<Option<Vec<Option<Vec<u8>>>>, ProtocolError>) -> Result<
    Option<Seq<Option<Seq<u8>>>>,
    ProtocolError,
> {
    match r {
        Ok(Some(elements)) => Ok(Some(elements_view(elements@))),
        Ok(None) => Ok(None),
        Err(e) => Err(e),
    }
}

/// Puts the elements `done` in front of those of `rest`; an error stays an
/// error.
pub open spec fn extend(
    done: Seq<Option<Seq<u8>>>,
    rest: Result<Seq<Option<Seq<u8>>>, ProtocolError>,
) -> Result<Seq<Option<Seq<u8>>>, ProtocolError> {
    match rest {
        Ok(tail) => Ok(done + tail),
        Err(e) => Err(e),
    }
}

/// Moving the head of what is left to the end of what is done changes
/// nothing.
proof fn lemma_extend_prepend(
    done: Seq<Option<Seq<u8>>>,
    head: Option<Seq<u8>>,
    rest: Result<Seq<Option<Seq<u8>>>, ProtocolError>,
)
    ensures
        extend(done, prepend(head, rest)) == extend(done.push(head), rest),
{
    if let Ok(tail) = rest {
        assert(done + (seq![head] + tail) =~= done.push(head) + tail);
    }
}

/// Finds the first carriage return at or after `from`.
fn find_line_end(buf: &[u8], from: usize) -> (end: usize)
    requires
        from <= buf@.len(),
    ensures
        end == line_end(buf@, from as int),
        from <= end <= buf@.len(),
{
    let mut i: usize = from;
    while i < buf.len() && buf[i] != CR
        invariant
            from <= i <= buf@.len(),
            line_end(buf@, from as int) == line_end(buf@, i as int),
        decreases buf@.len() - i,
    {
        i = i + 1;
    }
    i
}

/// Reads the length prefix that starts at `from`.
fn read_prefix(buf: &[u8], from: usize) -> (r: Option<(i64, usize)>)
    requires
        from <= buf@.len(),
    ensures
        match prefix_at(buf@, from as int) {
            Some((n, next)) => r == Some((n, next as usize)) && from + 2 <= next <= buf@.len()
                && buf@[next - 1] == LF,
            None => r is None,
        },
{
    let end = find_line_end(buf, from);
    if buf.len() - end < 2 || buf[end + 1] != LF {
        return None;
    }
    match parse_i64(slice_subrange(buf, from, end)) {
        Some(n) => Some((n, end + 2)),
        None => None,
    }
}

/// Scans one request and reports where the content of each element lies.
///
/// The outcome is what [`decode_spec`] gives for the buffer, with a span in
/// place of each content.
pub fn scan(buf: &[u8]) -> (r: Result<Option<Vec<Option<Span>>>, ProtocolError>)
    ensures
        scan_agrees(buf@, r),
{
    if buf.len() == 0 {
        return Err(ProtocolError::EmptyInput);
    }
    if buf[0] != ARRAY_MARK {
        return Err(ProtocolError::BadLength);
    }
    let (count, first) = match read_prefix(buf, 1) {
        Some(p) => p,
        None => {
            return Err(ProtocolError::BadLength);
        },
    };
    if count == -1 {
        return Ok(None);
    }
    if count < 0 {
        return Err(ProtocolError::BadLength);
    }
    let mut spans: Vec<Option<Span>> = Vec::new();
    proof {
        assert(contents(buf@, spans@) =~= Seq::empty());
    }
    if count == 0 {
        return Ok(Some(spans));
    }
    let mut pos: usize = first;
    proof {
        let rest = elements_at(buf@, first as int);
        if let Ok(tail) = rest {
            assert(Seq::<Option<Seq<u8>>>::empty() + tail =~= tail);
        }
    }
    while pos < buf.len()
        invariant
            pos <= buf@.len(),
            buf@.len() > 0,
            buf@[0] == ARRAY_MARK,
            prefix_at(buf@, 1) == Some((count, first as int)),
            count > 0,
            spans_fit(buf@, spans@),
            elements_at(buf@, first as int) == extend(
                contents(buf@, spans@),
                elements_at(buf@, pos as int),
            ),
        decreases buf@.len() - pos,
    {
        let ghost before = contents(buf@, spans@);
        if buf[pos] != BULK_MARK {
            return Err(ProtocolError::BadLength);
        }
        let (n, start) = match read_prefix(buf, pos + 1) {
            Some(p) => p,
            None => {
                return Err(ProtocolError::BadLength);
            },
        };
        if n == -1 {
            spans.push(None);
            proof {
                lemma_extend_prepend(before, None, elements_at(buf@, start as int));
                assert(contents(buf@, spans@) =~= before.push(None));
            }
            pos = start;
        } else if n < 0 {
            return Err(ProtocolError::BadLength);
        } else {
            let left: usize = buf.len() - start;
            if left < 2 || n as u64 > (left - 2) as u64 {
                return Err(ProtocolError::Truncated);
            }
            let end: usize = start + n as usize;
            if buf[end] != CR || buf[end + 1] != LF {
                return Err(ProtocolError::BadLength);
            }
            let span = Span { start, end };
            spans.push(Some(span));
            proof {
                lemma_extend_prepend(
                    before,
                    span_content(buf@, Some(span)),
                    elements_at(buf@, end + 2),
                );
                assert(contents(buf@, spans@) =~= before.push(span_content(buf@, Some(span))));
            }
            pos = end + 2;
        }
    }
    proof {
        assert(contents(buf@, spans@) + Seq::<Option<Seq<u8>>>::empty() =~= contents(
            buf@,
            spans@,
        ));
    }
    Ok(Some(spans))
}

/// Decodes one request and copies out the content of each element.
///
/// Gives `Ok(None)` for the null request, and otherwise the elements in
/// order, `None` for a null element.
pub fn decode(buf: &[u8]) -> (r: Result<Option<Vec<Option<Vec<u8>>>>, ProtocolError>)
    ensures
        decoded_view(r) == decode_spec(buf@),
{
    let spans = match scan(buf) {
        Ok(Some(spans)) => spans,
        Ok(None) => {
            return Ok(None);
        },
        Err(e) => {
            return Err(e);
        },
    };
    let mut out: Vec<Option<Vec<u8>>> = Vec::new();
    let mut i: usize = 0;
    while i < spans.len()
        invariant
            i <= spans@.len(),
            spans_fit(buf@, spans@),
            out@.len() == i,
            forall|j: int|
                0 <= j < i ==> element_view(#[trigger] out@[j]) == span_content(buf@, spans@[j]),
        decreases spans@.len() - i,
    {
        match spans[i] {
            Some(span) => {
                let bytes = slice_to_vec(slice_subrange(buf, span.start, span.end));
                out.push(Some(bytes));
            },
            None => {
                out.push(None);
            },
        }
        i = i + 1;
    }
    proof {
        assert(elements_view(out@) =~= contents(buf@, spans@));
    }
    Ok(Some(out))
}

} // verus!
